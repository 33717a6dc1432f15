//! FFmpeg control plane: device enumeration parsing, recording paths,
//! secret redaction, filter graphs and the argument vectors handed to the
//! `ffmpeg` process.
use vstd::prelude::*;

use crate::text::{
    chars_in_bytes, chars_in_bytes_exec, matches_at, chars_of, contains, contains_chars, copy_chars, decimal,
    find, find_chars, is_alnum, is_digit, is_lower, last_index_of, last_index_of_char, lead_end,
    lemma_contains, lemma_find_from, lemma_last_index_of, lemma_lower_char, lemma_trim_by_noop, lemma_trim_by_shape,
    lines, lines_of, lower, lower_char, lower_chars, parse_uint, parse_usize, push_chars,
    push_decimal, push_string_item, join, join_strings, push_str_item, decimal_string, replace_all, replace_chars, string_of, sviews, trim, trim_by,
    trim_chars, trim_chars_by, trim_start_by, utf8_len, utf8_len_exceeds, utf8_width, vviews,
    TrimPattern, char_is_alnum,
};
use crate::types::{
    DestinationConfig, DestinationKind, EncoderProfile, PipPosition, VideoFeedLayout,
    VideoFeedSelection, VideoSource, VideoSourceKind,
};

verus! {

/// Available audio and video capture devices on this system.
#[derive(Clone, Debug, PartialEq)]
pub struct AvDevices {
    pub video: Vec<String>,
    pub audio: Vec<String>,
    pub video_sources: Vec<VideoSource>,
}

// ---------------------------------------------------------------------------
// Device listing
// ---------------------------------------------------------------------------
pub open spec fn video_source_kind_spec(label: Seq<char>) -> VideoSourceKind {
    let l = lower(label);
    if contains(l, "capture screen"@) || contains(l, "screen"@) || contains(l, "display"@)
        || contains(l, "desktop"@) {
        VideoSourceKind::Screen
    } else {
        VideoSourceKind::Camera
    }
}

pub open spec fn kind_prefix(kind: VideoSourceKind) -> Seq<char> {
    match kind {
        VideoSourceKind::Camera => "camera"@,
        VideoSourceKind::Screen => "screen"@,
    }
}

/// The id a source gets: kind prefix, a hyphen, then the device index.
pub open spec fn video_source_id(index: usize, label: Seq<char>) -> Seq<char> {
    kind_prefix(video_source_kind_spec(label)) + "-"@ + decimal(index as nat)
}

/// A source built from its device index and label.
pub open spec fn is_video_source_for(v: VideoSource, index: usize, label: Seq<char>) -> bool {
    &&& v.id@ == video_source_id(index, label)
    &&& v.label@ == label
    &&& v.kind == video_source_kind_spec(label)
    &&& v.avfoundation_name@ == label
    &&& v.index == index
}

fn video_source_kind(label: &str) -> (r: VideoSourceKind)
    ensures
        r == video_source_kind_spec(label@),
{
    let l = lower_chars(&chars_of(label));
    if contains_chars(&l, &chars_of("capture screen")) || contains_chars(&l, &chars_of("screen"))
        || contains_chars(&l, &chars_of("display")) || contains_chars(&l, &chars_of("desktop")) {
        VideoSourceKind::Screen
    } else {
        VideoSourceKind::Camera
    }
}

pub fn make_video_source(index: usize, label: &str) -> (r: VideoSource)
    ensures
        is_video_source_for(r, index, label@),
{
    let kind = video_source_kind(label);
    let mut id = String::new();
    match kind {
        VideoSourceKind::Camera => id.push_str("camera"),
        VideoSourceKind::Screen => id.push_str("screen"),
    }
    id.push_str("-");
    push_decimal(&mut id, index as u64);
    VideoSource {
        id,
        label: String::from_str(label),
        kind,
        avfoundation_name: String::from_str(label),
        index,
    }
}

/// What `[AVFoundation indev @ 0x...] [<index>] <name>` yields: the index
/// after `"] ["` up to the next `"] "`, and the trimmed rest of the line.
pub open spec fn indexed_device_line(line: Seq<char>) -> Option<(usize, Seq<char>)> {
    match find(line, "] ["@) {
        None => None,
        Some(start) => {
            let after = line.subrange(start + 3, line.len() as int);
            match find(after, "] "@) {
                None => None,
                Some(end) => match parse_uint(after.subrange(0, end)) {
                    Some(v) => if v <= usize::MAX {
                        let name = trim(after.subrange(end + 2, after.len() as int));
                        if name.len() == 0 {
                            None
                        } else {
                            Some((v as usize, name))
                        }
                    } else {
                        None
                    },
                    None => None,
                },
            }
        },
    }
}

fn parse_indexed_device_line(line: &Vec<char>) -> (r: Option<(usize, Vec<char>)>)
    ensures
        r matches Some((i, n)) ==> indexed_device_line(line@) == Some((i, n@)),
        r is None ==> indexed_device_line(line@) is None,
{
    let open_pat = chars_of("] [");
    let start = match find_chars(line, &open_pat) {
        Some(s) => s,
        None => return None,
    };
    proof {
        lemma_find_from(line@, "] ["@, 0);
        reveal_strlit("] [");
        assert(matches_at(line@, "] ["@, start as int));
        assert("] ["@.len() == 3);
    }
    let n = line.len();
    let after = copy_chars(line, start + 3, n);
    let close_pat = chars_of("] ");
    let end = match find_chars(&after, &close_pat) {
        Some(e) => e,
        None => return None,
    };
    proof {
        lemma_find_from(after@, "] "@, 0);
        reveal_strlit("] ");
    }
    let digits = copy_chars(&after, 0, end);
    let index = match parse_usize(&digits) {
        Some(i) => i,
        None => return None,
    };
    let rest = copy_chars(&after, end + 2, after.len());
    let name = trim_chars(&rest);
    if name.len() == 0 {
        None
    } else {
        Some((index, name))
    }
}

/// Listing state after some lines: the video devices with their indices,
/// the audio devices, and whether the video section is the current one.
pub open spec fn listing_step(
    st: (Seq<(usize, Seq<char>)>, Seq<Seq<char>>, bool),
    line: Seq<char>,
) -> (Seq<(usize, Seq<char>)>, Seq<Seq<char>>, bool) {
    if contains(line, "AVFoundation video devices:"@) {
        (st.0, st.1, true)
    } else if contains(line, "AVFoundation audio devices:"@) {
        (st.0, st.1, false)
    } else {
        match indexed_device_line(line) {
            Some((index, name)) => if st.2 {
                (st.0.push((index, name)), st.1, st.2)
            } else {
                (st.0, st.1.push(name), st.2)
            },
            None => st,
        }
    }
}

pub open spec fn listing_fold(ls: Seq<Seq<char>>) -> (
    Seq<(usize, Seq<char>)>,
    Seq<Seq<char>>,
    bool,
)
    decreases ls.len(),
{
    if ls.len() == 0 {
        (seq![], seq![], true)
    } else {
        listing_step(listing_fold(ls.drop_last()), ls.last())
    }
}

/// What a device listing holds, read from `stderr`: video entries with their
/// index, audio names.
pub open spec fn device_listing(stderr: Seq<char>) -> (Seq<(usize, Seq<char>)>, Seq<Seq<char>>) {
    let st = listing_fold(lines(stderr));
    (st.0, st.1)
}

/// Parse FFmpeg's AVFoundation device listing from stderr output.
///
/// FFmpeg writes device information to stderr in the format
/// `[AVFoundation indev @ 0x...] [0] MacBook Pro Camera`; the sections are
/// introduced by `AVFoundation video devices:` and
/// `AVFoundation audio devices:`.
#[verifier::rlimit(30)]
pub fn parse_device_listing(stderr: &str) -> (r: AvDevices)
    ensures
        sviews(r.video@) == device_listing(stderr@).0.map_values(|e: (usize, Seq<char>)| e.1),
        sviews(r.audio@) == device_listing(stderr@).1,
        r.video_sources@.len() == r.video@.len(),
        forall|i: int|
            0 <= i < r.video_sources@.len() ==> is_video_source_for(
                #[trigger] r.video_sources@[i],
                device_listing(stderr@).0[i].0,
                device_listing(stderr@).0[i].1,
            ),
{
    let text = chars_of(stderr);
    let all = lines_of(&text);
    let video_marker = chars_of("AVFoundation video devices:");
    let audio_marker = chars_of("AVFoundation audio devices:");
    let mut video_devices: Vec<String> = Vec::new();
    let mut audio_devices: Vec<String> = Vec::new();
    let mut video_sources: Vec<VideoSource> = Vec::new();
    let mut is_video = true;
    let ghost ls = lines(stderr@);
    for i in 0..all.len()
        invariant
            vviews(all@) == ls,
            video_marker@ == "AVFoundation video devices:"@,
            audio_marker@ == "AVFoundation audio devices:"@,
            is_video == listing_fold(ls.take(i as int)).2,
            sviews(video_devices@) == listing_fold(ls.take(i as int)).0.map_values(
                |e: (usize, Seq<char>)| e.1,
            ),
            sviews(audio_devices@) == listing_fold(ls.take(i as int)).1,
            video_sources@.len() == video_devices@.len(),
            forall|k: int|
                0 <= k < video_sources@.len() ==> is_video_source_for(
                    #[trigger] video_sources@[k],
                    listing_fold(ls.take(i as int)).0[k].0,
                    listing_fold(ls.take(i as int)).0[k].1,
                ),
    {
        let ghost prev = listing_fold(ls.take(i as int));
        assert(ls.take(i + 1).drop_last() == ls.take(i as int));
        assert(ls.take(i + 1).last() == all@[i as int]@);
        let line = &all[i];
        if contains_chars(line, &video_marker) {
            is_video = true;
        } else if contains_chars(line, &audio_marker) {
            is_video = false;
        } else {
            match parse_indexed_device_line(line) {
                Some((index, name)) => {
                    if is_video {
                        let label = string_of(&name);
                        let source = make_video_source(index, label.as_str());
                        video_sources.push(source);
                        push_string_item(&mut video_devices, label);
                        assert(listing_fold(ls.take(i + 1)).0 == prev.0.push((index, name@)));
                        assert(listing_fold(ls.take(i + 1)).0.map_values(
                            |e: (usize, Seq<char>)| e.1,
                        ) =~= prev.0.map_values(|e: (usize, Seq<char>)| e.1).push(name@));
                    } else {
                        let label = string_of(&name);
                        push_string_item(&mut audio_devices, label);
                    }
                },
                None => {},
            }
        }
    }
    assert(ls.take(all.len() as int) == ls);
    AvDevices { video: video_devices, audio: audio_devices, video_sources }
}

// ---------------------------------------------------------------------------
// Time and recording paths
// ---------------------------------------------------------------------------
#[verifier::external_type_specification]
#[verifier::external_body]
pub struct ExSystemTime(std::time::SystemTime);

#[verifier::external_type_specification]
#[verifier::external_body]
pub struct ExSystemTimeError(std::time::SystemTimeError);

/// `SystemTime::now`: the clock's reading. It depends on the clock, so
/// nothing is stated of it.
#[verifier::external_body]
fn clock_now() -> std::time::SystemTime {
    std::time::SystemTime::now()
}

/// `SystemTime::duration_since`, from the Unix epoch: the time elapsed
/// since then, or an error when `t` is earlier. Nothing is stated of it.
#[verifier::external_body]
fn since_unix_epoch(t: std::time::SystemTime) -> Result<std::time::Duration, std::time::SystemTimeError> {
    t.duration_since(std::time::UNIX_EPOCH)
}

/// `Duration::as_millis`: the whole milliseconds of `d`. `Duration` is
/// opaque here, so nothing is stated of it.
#[verifier::external_body]
fn whole_millis(d: std::time::Duration) -> u128 {
    d.as_millis()
}

/// Milliseconds since the Unix epoch by the clock, 0 when the clock reads
/// before the epoch (taken modulo 2^64, as a `u64` cast does). The reading
/// depends on the clock, so nothing is stated of it.
pub fn now_millis() -> u64 {
    match since_unix_epoch(clock_now()) {
        Ok(elapsed) => {
            let ms = whole_millis(elapsed);
            #[verifier::truncate]
            (ms as u64)
        },
        Err(_) => 0,
    }
}

pub open spec fn filename_char(c: char) -> char {
    if is_alnum(c) || c == '-' || c == '_' {
        c
    } else {
        '-'
    }
}

/// A file-name-safe form of `value`: characters outside `[A-Za-z0-9_-]`
/// become `-`, leading and trailing `-` are dropped, the result is
/// lowercased, and an empty result becomes `stagebadger`.
pub open spec fn sanitize_filename_spec(value: Seq<char>) -> Seq<char> {
    let cleaned = value.map_values(|c: char| filename_char(c));
    let trimmed = trim_by(cleaned, TrimPattern::Char('-'));
    if trimmed.len() == 0 {
        "stagebadger"@
    } else {
        lower(trimmed)
    }
}

pub fn sanitize_filename(value: &str) -> (r: String)
    ensures
        r@ == sanitize_filename_spec(value@),
{
    let v = chars_of(value);
    let mut cleaned: Vec<char> = Vec::new();
    for i in 0..v.len()
        invariant
            cleaned@ == v@.take(i as int).map_values(|c: char| filename_char(c)),
    {
        let c = v[i];
        let m = if char_is_alnum(c) || c == '-' || c == '_' {
            c
        } else {
            '-'
        };
        cleaned.push(m);
        assert(v@.take(i + 1).map_values(|c: char| filename_char(c)) =~= v@.take(
            i as int,
        ).map_values(|c: char| filename_char(c)).push(filename_char(c)));
    }
    assert(v@.take(v.len() as int) == v@);
    let trimmed = trim_chars_by(&cleaned, TrimPattern::Char('-'));
    if trimmed.len() == 0 {
        String::from_str("stagebadger")
    } else {
        string_of(&lower_chars(&trimmed))
    }
}

/// Every character of a sanitized name is a lowercase letter, a digit, `-`
/// or `_`; it is never empty and never starts or ends with `-`.
pub open spec fn is_safe_filename(s: Seq<char>) -> bool {
    &&& s.len() > 0
    &&& forall|i: int| 0 <= i < s.len() ==> (is_lower(#[trigger] s[i]) || is_digit(s[i]) || s[i]
        == '-' || s[i] == '_')
    &&& s[0] != '-'
    &&& s.last() != '-'
}

/// Sanitizing yields a safe name, and sanitizing a sanitized name changes
/// nothing.
pub proof fn lemma_sanitize_filename_idempotent(value: Seq<char>)
    ensures
        is_safe_filename(sanitize_filename_spec(value)),
        sanitize_filename_spec(sanitize_filename_spec(value)) == sanitize_filename_spec(value),
{
    let p = TrimPattern::Char('-');
    let cleaned = value.map_values(|c: char| filename_char(c));
    let trimmed = trim_by(cleaned, p);
    lemma_trim_by_shape(cleaned, p);
    let out = sanitize_filename_spec(value);
    if trimmed.len() == 0 {
        reveal_strlit("stagebadger");
        assert(is_safe_filename(out));
    } else {
        assert forall|c: char| trimmed.contains(c) implies (is_alnum(c) || c == '-' || c == '_') by {
            assert(cleaned.contains(c));
            let k = choose|k: int| 0 <= k < cleaned.len() && cleaned[k] == c;
            assert(cleaned[k] == filename_char(value[k]));
        }
        assert forall|i: int| 0 <= i < out.len() implies (is_lower(#[trigger] out[i]) || is_digit(
            out[i],
        ) || out[i] == '-' || out[i] == '_') by {
            assert(trimmed.contains(trimmed[i]));
            lemma_lower_char(trimmed[i]);
        }
        lemma_lower_char(trimmed[0]);
        lemma_lower_char(trimmed.last());
        assert(is_safe_filename(out));
    }
    // A safe name survives every step unchanged.
    let c2 = out.map_values(|c: char| filename_char(c));
    assert(c2 =~= out);
    lemma_trim_by_noop(out, p);
    assert(lower(out) =~= out) by {
        assert forall|i: int| 0 <= i < out.len() implies lower_char(out[i]) == out[i] by {
            lemma_lower_char(out[i]);
        }
    }
}

/// The file name of a recording: sanitized prefix, `-`, the millisecond
/// stamp, `.`, then the extension without its leading dots.
pub open spec fn recording_file_name(prefix: Seq<char>, extension: Seq<char>, stamp: u64) -> Seq<
    char,
> {
    sanitize_filename_spec(prefix) + "-"@ + decimal(stamp as nat) + "."@ + trim_start_by(
        extension,
        TrimPattern::Char('.'),
    )
}

/// `PathBuf::join` of a relative file name onto `dir`.
pub open spec fn path_join(dir: Seq<char>, name: Seq<char>) -> Seq<char> {
    if dir.len() == 0 {
        name
    } else if dir.last() == '/' {
        dir + name
    } else {
        dir + "/"@ + name
    }
}

/// The path of a new recording in `directory`, stamped with `stamp`
/// milliseconds.
pub fn recording_path_at(directory: &str, prefix: &str, extension: &str, stamp: u64) -> (r: String)
    ensures
        r@ == path_join(directory@, recording_file_name(prefix@, extension@, stamp)),
{
    let safe_prefix = sanitize_filename(prefix);
    let ext = chars_of(extension);
    let mut a: usize = 0;
    while a < ext.len() && ext[a] == '.'
        invariant
            0 <= a <= ext.len(),
            lead_end(ext@, TrimPattern::Char('.'), 0) == lead_end(
                ext@,
                TrimPattern::Char('.'),
                a as int,
            ),
        decreases ext.len() - a,
    {
        a = a + 1;
    }
    let ext_rest = copy_chars(&ext, a, ext.len());
    let mut name = safe_prefix;
    name.push_str("-");
    push_decimal(&mut name, stamp);
    name.push_str(".");
    push_chars(&mut name, &ext_rest);
    let dir = chars_of(directory);
    let mut out = String::new();
    if dir.len() == 0 {
        out.push_str(name.as_str());
    } else if dir[dir.len() - 1] == '/' {
        out.push_str(directory);
        out.push_str(name.as_str());
    } else {
        out.push_str(directory);
        out.push_str("/");
        out.push_str(name.as_str());
    }
    out
}

/// The path of a new recording in `directory`, stamped with the current
/// time (see `recording_path_at`).
pub fn timestamped_recording_path(directory: &str, prefix: &str, extension: &str) -> (r: String)
    ensures
        exists|stamp: u64|
            r@ == path_join(directory@, #[trigger] recording_file_name(prefix@, extension@, stamp)),
{
    let stamp = now_millis();
    recording_path_at(directory, prefix, extension, stamp)
}

// ---------------------------------------------------------------------------
// Secret redaction
// ---------------------------------------------------------------------------
/// Whether `redact_secret` can cut after the first four bytes of `s`: `s`
/// is at most eight bytes long, or byte four starts a character.
pub open spec fn redactable(s: Seq<char>) -> bool {
    utf8_len(s) <= 8 || chars_in_bytes(s, 4) is Some
}

/// `[redacted]` for secrets of at most eight bytes; otherwise the first four
/// bytes of the secret followed by `...[redacted]`.
pub open spec fn redact_secret_spec(s: Seq<char>) -> Seq<char> {
    if utf8_len(s) <= 8 {
        "[redacted]"@
    } else {
        s.take(chars_in_bytes(s, 4)->0 as int) + "...[redacted]"@
    }
}

fn redact_secret_chars(v: &Vec<char>) -> (r: String)
    requires
        redactable(v@),
    ensures
        r@ == redact_secret_spec(v@),
{
    if !utf8_len_exceeds(v, 8) {
        return String::from_str("[redacted]");
    }
    let k = match chars_in_bytes_exec(v, 4) {
        Some(k) => k,
        None => {
            return String::from_str("[redacted]");
        },
    };
    proof {
        lemma_chars_in_bytes_bound(v@, 4);
    }
    let head = copy_chars(v, 0, k);
    let mut r = string_of(&head);
    r.push_str("...[redacted]");
    assert(head@ == v@.take(k as int));
    r
}

pub proof fn lemma_chars_in_bytes_bound(s: Seq<char>, n: nat)
    ensures
        chars_in_bytes(s, n) matches Some(k) ==> k <= s.len() && utf8_len(s.take(k as int)) == n,
    decreases s.len(),
{
    if n > 0 && s.len() > 0 && utf8_width(s[0]) <= n {
        lemma_chars_in_bytes_bound(s.drop_first(), (n - utf8_width(s[0])) as nat);
        if let Some(k) = chars_in_bytes(s, n) {
            lemma_utf8_len_first(s.take(k as int));
            assert(s.take(k as int).drop_first() == s.drop_first().take(k - 1));
        }
    }
}

/// The byte length splits into the first character and the rest.
pub proof fn lemma_utf8_len_first(s: Seq<char>)
    requires
        s.len() > 0,
    ensures
        utf8_len(s) == utf8_width(s[0]) + utf8_len(s.drop_first()),
    decreases s.len(),
{
    if s.len() > 1 {
        let dl = s.drop_last();
        let df = s.drop_first();
        lemma_utf8_len_first(dl);
        assert(dl.drop_first() == df.drop_last());
        assert(df.last() == s.last());
        assert(dl[0] == s[0]);
        assert(utf8_len(df) == utf8_len(df.drop_last()) + utf8_width(df.last()));
        assert(utf8_len(s) == utf8_len(dl) + utf8_width(s.last()));
    } else {
        assert(s.drop_first().len() == 0);
        assert(s.drop_last().len() == 0);
        assert(utf8_len(s) == utf8_len(s.drop_last()) + utf8_width(s.last()));
        assert(s.last() == s[0]);
    }
}

/// `redact_secret`: hides all but the first four bytes of a long secret.
pub fn redact_secret(value: &str) -> (r: String)
    requires
        redactable(value@),
    ensures
        r@ == redact_secret_spec(value@),
{
    let v = chars_of(value);
    redact_secret_chars(&v)
}

/// The marker that stands for the hidden part of a long secret.
pub open spec fn redaction_marker() -> Seq<char> {
    "...[redacted]"@
}

/// What `redact_secret` shows of a secret: the marker's tail for a short
/// one; the characters of the first four bytes (fewer than all of them) and
/// the marker for a long one.
proof fn lemma_redaction_shape(secret: Seq<char>) -> (b: int)
    requires
        redactable(secret),
    ensures
        utf8_len(secret) <= 8 ==> redact_secret_spec(secret) == redaction_marker().subrange(3, 13),
        utf8_len(secret) > 8 ==> 0 <= b < secret.len() && redact_secret_spec(secret)
            == secret.take(b) + redaction_marker(),
        redaction_marker().len() == 13,
        redaction_marker()[0] == '.',
        redaction_marker().subrange(3, 13) == "[redacted]"@,
{
    reveal_strlit("[redacted]");
    reveal_strlit("...[redacted]");
    assert(redaction_marker().subrange(3, 13) =~= "[redacted]"@);
    if utf8_len(secret) > 8 {
        let b = chars_in_bytes(secret, 4)->0 as int;
        lemma_chars_in_bytes_bound(secret, 4);
        if b == secret.len() {
            assert(secret.take(b) =~= secret);
        }
        b
    } else {
        0
    }
}

/// An occurrence of `p` in `a + b` lies in `a`, in `b`, or covers the last
/// character of `a` and the first of `b`.
proof fn lemma_occurrence_split(a: Seq<char>, b: Seq<char>, p: Seq<char>, i: int)
    requires
        matches_at(a + b, p, i),
        p.len() > 0,
    ensures
        i + p.len() <= a.len() ==> matches_at(a, p, i),
        i >= a.len() ==> matches_at(b, p, i - a.len()),
        i < a.len() < i + p.len() ==> p[a.len() - 1 - i] == a.last() && p[a.len() - i] == b[0],
{
    let o = a + b;
    let n = p.len() as int;
    assert(o.subrange(i, i + n) == p);
    if i + n <= a.len() {
        assert(a.subrange(i, i + n) =~= o.subrange(i, i + n));
    }
    if i >= a.len() {
        assert(b.subrange(i - a.len(), i - a.len() + n) =~= o.subrange(i, i + n));
    }
    if i < a.len() < i + n {
        assert(o.subrange(i, i + n)[a.len() - 1 - i] == o[a.len() - 1]);
        assert(o.subrange(i, i + n)[a.len() - i] == o[a.len() as int]);
    }
}

/// Nothing in `shown` (what is displayed of a secret) repeats the secret
/// when `shown` is a part of the marker, or a proper prefix of the secret
/// followed by the marker, and the secret holds no `.` and does not occur
/// in the marker.
#[verifier::rlimit(30)]
proof fn lemma_shown_lacks_secret(shown: Seq<char>, secret: Seq<char>, b: int)
    requires
        secret.len() > 0,
        !contains(redaction_marker(), secret),
        forall|j: int| 0 <= j < secret.len() ==> #[trigger] secret[j] != '.',
        redaction_marker().len() == 13,
        redaction_marker()[0] == '.',
        (shown == redaction_marker().subrange(3, 13)) || (0 <= b < secret.len() && shown
            == secret.take(b) + redaction_marker()),
    ensures
        !contains(shown, secret),
{
    let m = redaction_marker();
    let n = secret.len() as int;
    lemma_contains(shown, secret);
    lemma_contains(m, secret);
    if contains(shown, secret) {
        let k = choose|k: int| matches_at(shown, secret, k);
        if shown == m.subrange(3, 13) {
            assert(m.subrange(k + 3, k + 3 + n) =~= shown.subrange(k, k + n));
            assert(matches_at(m, secret, k + 3));
        } else {
            let head = secret.take(b);
            lemma_occurrence_split(head, m, secret, k);
            if k >= b {
                assert(matches_at(m, secret, k - b));
            } else {
                assert(k + n > b);
                assert(secret[b - k] == m[0]);
            }
        }
    }
}

/// A secret shown after a `/`-terminated prefix through `redact_secret`
/// does not appear in what is shown, and the redaction is marked, provided
/// the secret holds neither `/` nor `.` and occurs neither in the prefix nor
/// in the marker.
#[verifier::rlimit(30)]
pub proof fn law_redaction_hides_secret(prefix: Seq<char>, secret: Seq<char>)
    requires
        prefix.len() > 0,
        prefix.last() == '/',
        secret.len() > 0,
        redactable(secret),
        !contains(prefix, secret),
        !contains(redaction_marker(), secret),
        forall|j: int| 0 <= j < secret.len() ==> #[trigger] secret[j] != '/' && secret[j] != '.',
    ensures
        !contains(prefix + redact_secret_spec(secret), secret),
        contains(prefix + redact_secret_spec(secret), "[redacted]"@),
{
    let m = redaction_marker();
    let red = redact_secret_spec(secret);
    let o = prefix + red;
    let a = prefix.len() as int;
    let b = lemma_redaction_shape(secret);
    assert(forall|j: int| 0 <= j < secret.len() ==> #[trigger] secret[j] != '.');
    lemma_shown_lacks_secret(red, secret, b);
    lemma_contains(o, secret);
    lemma_contains(prefix, secret);
    lemma_contains(red, secret);
    if contains(o, secret) {
        let i = choose|i: int| matches_at(o, secret, i);
        lemma_occurrence_split(prefix, red, secret, i);
        if i < a && a < i + secret.len() {
            assert(secret[a - 1 - i] == '/');
        }
    }
    // the marker's `[redacted]` sits at its offset 3
    let at: int = if utf8_len(secret) <= 8 {
        a
    } else {
        a + b + 3
    };
    let tag = "[redacted]"@;
    assert(o.subrange(at, at + 10) =~= m.subrange(3, 13));
    assert(matches_at(o, tag, at));
    lemma_contains(o, tag);
}

/// `redact_url`: a final path segment longer than eight bytes is redacted;
/// otherwise every `access_token=` is marked `access_token=[redacted]`.
pub open spec fn redact_url_spec(value: Seq<char>) -> Seq<char> {
    match last_index_of(value, '/') {
        Some(k) => {
            let secret = value.subrange(k + 1, value.len() as int);
            if utf8_len(secret) > 8 {
                value.subrange(0, k) + "/"@ + redact_secret_spec(secret)
            } else {
                replace_all(value, "access_token="@, "access_token=[redacted]"@)
            }
        },
        None => replace_all(value, "access_token="@, "access_token=[redacted]"@),
    }
}

/// What `redact_url` needs of its input: a long final segment is cut on a
/// character boundary.
pub open spec fn url_redactable(value: Seq<char>) -> bool {
    match last_index_of(value, '/') {
        Some(k) => redactable(value.subrange(k + 1, value.len() as int)),
        None => true,
    }
}

fn redact_url_chars(v: &Vec<char>) -> (r: String)
    requires
        url_redactable(v@),
    ensures
        r@ == redact_url_spec(v@),
{
    match last_index_of_char(v, '/') {
        Some(k) => {
            proof {
                lemma_last_index_of(v@, '/');
            }
            assert(k < v.len());
            let secret = copy_chars(v, k + 1, v.len());
            if utf8_len_exceeds(&secret, 8) {
                let prefix = copy_chars(v, 0, k);
                let mut r = string_of(&prefix);
                r.push_str("/");
                let red = redact_secret_chars(&secret);
                r.push_str(red.as_str());
                return r;
            }
        },
        None => {},
    }
    let pat = chars_of("access_token=");
    let rep = chars_of("access_token=[redacted]");
    proof {
        reveal_strlit("access_token=");
    }
    let out = replace_chars(v, &pat, &rep);
    string_of(&out)
}

pub fn redact_url(value: &str) -> (r: String)
    requires
        url_redactable(value@),
    ensures
        r@ == redact_url_spec(value@),
{
    let v = chars_of(value);
    redact_url_chars(&v)
}

/// Whether `redact_url` can take `value` (see `url_redactable`).
pub fn is_url_redactable(value: &str) -> (r: bool)
    ensures
        r == url_redactable(value@),
{
    let v = chars_of(value);
    match last_index_of_char(&v, '/') {
        Some(k) => {
            proof {
                lemma_last_index_of(v@, '/');
            }
            let secret = copy_chars(&v, k + 1, v.len());
            !utf8_len_exceeds(&secret, 8) || chars_in_bytes_exec(&secret, 4).is_some()
        },
        None => true,
    }
}

/// A stream URL whose key (its last path segment) is longer than eight
/// bytes no longer shows the key once redacted, and shows the redaction,
/// provided the key holds no `.` and occurs neither earlier in the URL nor
/// in the marker.
#[verifier::rlimit(30)]
pub proof fn law_redact_url_hides_stream_key(value: Seq<char>)
    requires
        url_redactable(value),
        last_index_of(value, '/') matches Some(k) && {
            let key = value.subrange(k + 1, value.len() as int);
            &&& utf8_len(key) > 8
            &&& forall|j: int| 0 <= j < key.len() ==> #[trigger] key[j] != '.'
            &&& !contains(value.subrange(0, k + 1), key)
            &&& !contains(redaction_marker(), key)
        },
    ensures
        ({
            let key = value.subrange(last_index_of(value, '/')->0 + 1, value.len() as int);
            &&& !contains(redact_url_spec(value), key)
            &&& contains(redact_url_spec(value), "[redacted]"@)
        }),
{
    lemma_last_index_of(value, '/');
    let k = last_index_of(value, '/')->0;
    let key = value.subrange(k + 1, value.len() as int);
    let prefix = value.subrange(0, k + 1);
    assert(prefix =~= value.subrange(0, k) + "/"@) by {
        reveal_strlit("/");
    }
    if key.len() == 0 {
        assert(utf8_len(key) == 0);
    }
    assert forall|j: int| 0 <= j < key.len() implies #[trigger] key[j] != '/' && key[j] != '.' by {
        assert(key[j] == value[k + 1 + j]);
    }
    law_redaction_hides_secret(prefix, key);
    assert(redact_url_spec(value) == prefix + redact_secret_spec(key));
}

/// What `redact_ffmpeg_args` needs of an argument: one that carries an
/// RTMP(S) URL can be redacted.
pub open spec fn arg_redactable(arg: Seq<char>) -> bool {
    (contains(arg, "rtmp://"@) || contains(arg, "rtmps://"@)) ==> url_redactable(arg)
}

/// Whether `redact_ffmpeg_args` can take `arg` (see `arg_redactable`).
pub fn is_arg_redactable(arg: &str) -> (r: bool)
    ensures
        r == arg_redactable(arg@),
{
    let a = chars_of(arg);
    if contains_chars(&a, &chars_of("rtmp://")) || contains_chars(&a, &chars_of("rtmps://")) {
        is_url_redactable(arg)
    } else {
        true
    }
}

/// An argument is redacted when it carries an RTMP(S) URL.
pub open spec fn redact_arg_spec(arg: Seq<char>) -> Seq<char> {
    if contains(arg, "rtmp://"@) || contains(arg, "rtmps://"@) {
        redact_url_spec(arg)
    } else {
        arg
    }
}

pub fn redact_ffmpeg_args(args: &[String]) -> (r: Vec<String>)
    requires
        forall|i: int| 0 <= i < args@.len() ==> arg_redactable(#[trigger] args@[i]@),
    ensures
        r@.len() == args@.len(),
        forall|i: int| 0 <= i < args@.len() ==> #[trigger] r@[i]@ == redact_arg_spec(args@[i]@),
{
    let rtmp = chars_of("rtmp://");
    let rtmps = chars_of("rtmps://");
    let mut r: Vec<String> = Vec::new();
    for i in 0..args.len()
        invariant
            rtmp@ == "rtmp://"@,
            rtmps@ == "rtmps://"@,
            forall|j: int| 0 <= j < args@.len() ==> arg_redactable(#[trigger] args@[j]@),
            r@.len() == i,
            forall|j: int| 0 <= j < i ==> #[trigger] r@[j]@ == redact_arg_spec(args@[j]@),
    {
        let a = chars_of(args[i].as_str());
        if contains_chars(&a, &rtmp) || contains_chars(&a, &rtmps) {
            r.push(redact_url_chars(&a));
        } else {
            r.push(args[i].clone());
        }
    }
    r
}


// ---------------------------------------------------------------------------
// Output destinations and feed selection
// ---------------------------------------------------------------------------
/// The URL FFmpeg publishes to: none when only recording, otherwise the
/// ingest URL followed directly by the stream key.
pub fn destination_output_url(destination: &DestinationConfig) -> (r: Result<Option<String>, String>)
    ensures
        destination.kind == DestinationKind::RecordOnly ==> r == Ok::<Option<String>, String>(None),
        destination.kind != DestinationKind::RecordOnly ==> match (
            destination.rtmp_url,
            destination.stream_key,
        ) {
            (Some(base), Some(key)) => r matches Ok(Some(url)) && url@ == base@ + key@,
            (None, _) => r matches Err(m) && m@ == "RTMP ingest URL is missing"@,
            (Some(_), None) => r matches Err(m) && m@ == "Stream key is missing"@,
        },
{
    match destination.kind {
        DestinationKind::RecordOnly => Ok(None),
        _ => {
            let base = match &destination.rtmp_url {
                Some(b) => b,
                None => {
                    return Err(String::from_str("RTMP ingest URL is missing"));
                },
            };
            let key = match &destination.stream_key {
                Some(k) => k,
                None => {
                    return Err(String::from_str("Stream key is missing"));
                },
            };
            let mut url = base.clone();
            url.push_str(key.as_str());
            Ok(Some(url))
        },
    }
}

/// `Err` exactly when the in-screen feed is enabled and either no in-screen
/// source is chosen or it is the program source (same id or same device name).
pub fn validate_video_feeds(feeds: &VideoFeedSelection) -> (r: Result<(), String>)
    ensures
        !feeds.layout.pip_enabled ==> r is Ok,
        feeds.layout.pip_enabled ==> match feeds.pip {
            None => r matches Err(m) && m@
                == "In-screen feed is enabled but no PiP source was selected"@,
            Some(pip) => if feeds.primary.id@ == pip.id@ || feeds.primary.avfoundation_name@
                == pip.avfoundation_name@ {
                r matches Err(m) && m@ == "Program feed and in-screen feed must be different sources"@
            } else {
                r is Ok
            },
        },
{
    if feeds.layout.pip_enabled {
        let pip = match &feeds.pip {
            Some(p) => p,
            None => {
                return Err(
                    String::from_str("In-screen feed is enabled but no PiP source was selected"),
                );
            },
        };
        if feeds.primary.id == pip.id || feeds.primary.avfoundation_name == pip.avfoundation_name {
            return Err(
                String::from_str("Program feed and in-screen feed must be different sources"),
            );
        }
    }
    Ok(())
}

/// The single-camera selection: device 0 named by `camera_id`, no in-screen feed.
pub open spec fn is_legacy_feeds(f: VideoFeedSelection, camera_id: Seq<char>) -> bool {
    &&& is_video_source_for(f.primary, 0, camera_id)
    &&& f.pip is None
    &&& !f.layout.pip_enabled
    &&& f.layout.pip_position == PipPosition::BottomRight
}

fn legacy_video_feeds(camera_id: &str) -> (r: VideoFeedSelection)
    ensures
        is_legacy_feeds(r, camera_id@),
{
    VideoFeedSelection {
        primary: make_video_source(0, camera_id),
        pip: None,
        layout: VideoFeedLayout::default(),
    }
}

/// Two selections that agree field by field.
pub open spec fn same_source(a: VideoSource, b: VideoSource) -> bool {
    &&& a.id@ == b.id@
    &&& a.label@ == b.label@
    &&& a.kind == b.kind
    &&& a.avfoundation_name@ == b.avfoundation_name@
    &&& a.index == b.index
}

pub open spec fn same_feeds(a: VideoFeedSelection, b: VideoFeedSelection) -> bool {
    &&& same_source(a.primary, b.primary)
    &&& a.layout == b.layout
    &&& (a.pip is None <==> b.pip is None)
    &&& (a.pip matches Some(x) ==> b.pip matches Some(y) && same_source(x, y))
}

pub fn copy_feeds(f: &VideoFeedSelection) -> (r: VideoFeedSelection)
    ensures
        same_feeds(r, *f),
{
    VideoFeedSelection {
        primary: f.primary.copy(),
        pip: match &f.pip {
            Some(p) => Some(p.copy()),
            None => None,
        },
        layout: f.layout,
    }
}

/// The requested selection, or the single-camera one when none was given.
pub fn resolved_video_feeds(camera_id: &str, video_feeds: Option<&VideoFeedSelection>) -> (r:
    VideoFeedSelection)
    ensures
        video_feeds matches Some(f) ==> same_feeds(r, *f),
        video_feeds is None ==> is_legacy_feeds(r, camera_id@),
{
    match video_feeds {
        Some(f) => copy_feeds(f),
        None => legacy_video_feeds(camera_id),
    }
}

// ---------------------------------------------------------------------------
// Filter graphs
// ---------------------------------------------------------------------------
/// Chat text drawn top-left, re-read from its file on every frame.
pub const DRAWTEXT_CHAT: &'static str = "drawtext=textfile='/tmp/stagebadger_chat.txt':reload=1:fontfile='/System/Library/Fonts/Helvetica.ttc':fontcolor=white:fontsize=24:x=10:y=10:box=1:boxcolor=black@0.5";

/// Captions drawn bottom-centre, re-read from their file on every frame.
pub const DRAWTEXT_ASR: &'static str = "drawtext=textfile='/tmp/stagebadger_asr.txt':reload=1:fontfile='/System/Library/Fonts/Helvetica.ttc':fontcolor=yellow:fontsize=32:x=(w-text_w)/2:y=h-th-20:box=1:boxcolor=black@0.5";

/// The two text layers, chat then captions.
pub open spec fn text_layers() -> Seq<char> {
    DRAWTEXT_CHAT@ + ","@ + DRAWTEXT_ASR@
}

/// The `-filter_complex` graph of a broadcast: an optional background blur,
/// an optional PNG overlay (input 1) composited at the top right with a
/// 20 px margin, then the chat and caption text layers into `[v_out]`.
pub open spec fn filter_graph_spec(has_overlay: bool, blur: bool) -> Seq<char> {
    if has_overlay {
        if blur {
            "[0:v]gblur=sigma=10:steps=2[base];[base][1:v]overlay=W-w-20:20[v1];[v1]"@
                + text_layers() + "[v_out]"@
        } else {
            "[0:v][1:v]overlay=W-w-20:20[v1];[v1]"@
                + text_layers() + "[v_out]"@
        }
    } else if blur {
        "[0:v]gblur=sigma=10:steps=2,"@ + text_layers() + "[v_out]"@
    } else {
        text_layers() + "[v_out]"@
    }
}

/// `Path::exists`: whether something is at `path` right now. The answer
/// depends on what is on disk, so nothing is stated of it.
#[verifier::external_body]
fn path_exists(path: &str) -> bool {
    std::path::Path::new(path).exists()
}

/// `found` is an answer that `path_exists` can give when asked about `path`:
/// what the disk said about it.
pub closed spec fn disk_answer(path: Seq<char>, found: bool) -> bool {
    exists|p: &str| p@ == path && #[trigger] call_ensures(path_exists, (p,), found)
}

/// Whether the PNG at `overlay_path` is used: never for an empty path,
/// otherwise as the disk answers whether a file is there.
pub open spec fn overlay_choice(overlay_path: Seq<char>, used: bool) -> bool {
    if overlay_path.len() == 0 {
        !used
    } else {
        disk_answer(overlay_path, used)
    }
}

/// Asks the disk whether the PNG at `overlay_path` is there (an empty path
/// is never looked up).
fn overlay_in_use(overlay_path: &str) -> (r: bool)
    ensures
        overlay_choice(overlay_path@, r),
{
    if overlay_path.is_empty() {
        false
    } else {
        let probe = path_exists;
        let found = probe(overlay_path);
        assert(call_ensures(path_exists, (overlay_path,), found));
        found
    }
}

fn push_text_layers(s: &mut String)
    ensures
        final(s)@ == old(s)@ + text_layers(),
{
    s.push_str(DRAWTEXT_CHAT);
    s.push_str(",");
    s.push_str(DRAWTEXT_ASR);
}

/// The broadcast filter graph for a known overlay state.
pub fn filter_graph_for(has_overlay: bool, blur_background: bool) -> (r: String)
    ensures
        r@ == filter_graph_spec(has_overlay, blur_background),
{
    let mut s = String::new();
    if has_overlay {
        if blur_background {
            s.push_str("[0:v]gblur=sigma=10:steps=2[base];[base][1:v]overlay=W-w-20:20[v1];[v1]");
        } else {
            s.push_str("[0:v][1:v]overlay=W-w-20:20[v1];[v1]");
        }
    } else if blur_background {
        s.push_str("[0:v]gblur=sigma=10:steps=2,");
    }
    push_text_layers(&mut s);
    s.push_str("[v_out]");
    s
}

/// Build the FFmpeg `-filter_complex` string; the second component tells
/// whether the PNG at `overlay_path` is used (the path is non-empty and a
/// file is there).
pub fn build_filter_graph(overlay_path: &str, blur_background: bool) -> (r: (String, bool))
    ensures
        overlay_choice(overlay_path@, r.1),
        r.0@ == filter_graph_spec(r.1, blur_background),
{
    let has_overlay = overlay_in_use(overlay_path);
    (filter_graph_for(has_overlay, blur_background), has_overlay)
}

/// Scales `input` to `width`x`height` into `output`: cameras fill the frame
/// and are cropped, screens keep their aspect ratio and are padded.
pub open spec fn normalize_video_filter_spec(
    input: Seq<char>,
    output: Seq<char>,
    kind: VideoSourceKind,
    width: u32,
    height: u32,
) -> Seq<char> {
    let w = decimal(width as nat);
    let h = decimal(height as nat);
    match kind {
        VideoSourceKind::Camera => input + "scale="@ + w + ":"@ + h
            + ":force_original_aspect_ratio=increase,crop="@ + w + ":"@ + h + ",setsar=1"@ + output,
        VideoSourceKind::Screen => input + "scale="@ + w + ":"@ + h
            + ":force_original_aspect_ratio=decrease,pad="@ + w + ":"@ + h
            + ":(ow-iw)/2:(oh-ih)/2,setsar=1"@ + output,
    }
}

fn normalize_video_filter(input: &str, output: &str, kind: VideoSourceKind, width: u32, height: u32) -> (r:
    String)
    ensures
        r@ == normalize_video_filter_spec(input@, output@, kind, width, height),
{
    let mut s = String::new();
    s.push_str(input);
    s.push_str("scale=");
    push_decimal(&mut s, width as u64);
    s.push_str(":");
    push_decimal(&mut s, height as u64);
    match kind {
        VideoSourceKind::Camera => {
            s.push_str(":force_original_aspect_ratio=increase,crop=");
            push_decimal(&mut s, width as u64);
            s.push_str(":");
            push_decimal(&mut s, height as u64);
            s.push_str(",setsar=1");
        },
        VideoSourceKind::Screen => {
            s.push_str(":force_original_aspect_ratio=decrease,pad=");
            push_decimal(&mut s, width as u64);
            s.push_str(":");
            push_decimal(&mut s, height as u64);
            s.push_str(":(ow-iw)/2:(oh-ih)/2,setsar=1");
        },
    }
    s.push_str(output);
    s
}

/// Overlay coordinates of the in-screen feed, 24 pixels from the chosen corner.
pub open spec fn pip_xy_spec(position: PipPosition) -> (Seq<char>, Seq<char>) {
    match position {
        PipPosition::BottomRight => ("W-w-24"@, "H-h-24"@),
        PipPosition::BottomLeft => ("24"@, "H-h-24"@),
        PipPosition::TopRight => ("W-w-24"@, "24"@),
        PipPosition::TopLeft => ("24"@, "24"@),
    }
}

/// The in-screen feed's height for a width of `pip_width` pixels: 9/16 of
/// it, rounded half up, and at least 2.
pub open spec fn pip_height_spec(pip_width: u32) -> nat {
    let h = (9 * pip_width + 8) / 16;
    if h < 2 {
        2
    } else {
        h as nat
    }
}

/// The in-screen feed's height for a width of `pip_width` pixels (see
/// `pip_height_spec`).
pub fn pip_height(pip_width: u32) -> (r: u32)
    ensures
        r == pip_height_spec(pip_width),
{
    let h: u64 = (9 * (pip_width as u64) + 8) / 16;
    if h < 2 {
        2
    } else {
        h as u32
    }
}

fn pip_overlay_xy(position: PipPosition, _margin: u32) -> (r: (&'static str, &'static str))
    ensures
        (r.0@, r.1@) == pip_xy_spec(position),
{
    match position {
        PipPosition::BottomRight => ("W-w-24", "H-h-24"),
        PipPosition::BottomLeft => ("24", "H-h-24"),
        PipPosition::TopRight => ("W-w-24", "24"),
        PipPosition::TopLeft => ("24", "24"),
    }
}

/// Whether the in-screen feed takes part: it is enabled and a source is chosen.
pub open spec fn pip_active(feeds: VideoFeedSelection) -> bool {
    feeds.layout.pip_enabled && feeds.pip is Some
}

/// Label of the program stream after the blur and in-screen stages.
pub open spec fn label_after_pip(feeds: VideoFeedSelection, blur: bool) -> Seq<char> {
    if pip_active(feeds) {
        "program_pip"@
    } else if blur {
        "program_blur"@
    } else {
        "program0"@
    }
}

/// The stages of the program graph, in order; they are joined with `;`.
pub open spec fn composed_parts(
    feeds: VideoFeedSelection,
    pip_width: u32,
    pip_height: u32,
    has_overlay: bool,
    encoder: EncoderProfile,
    blur: bool,
    eq: Option<Seq<char>>,
) -> Seq<Seq<char>> {
    let base = seq![
        normalize_video_filter_spec(
            "[0:v]"@,
            "[program0]"@,
            feeds.primary.kind,
            encoder.width,
            encoder.height,
        ),
    ];
    let blurred = if blur {
        base.push("[program0]gblur=sigma=10:steps=2[program_blur]"@)
    } else {
        base
    };
    let before_pip = if blur {
        "program_blur"@
    } else {
        "program0"@
    };
    let with_pip = if pip_active(feeds) {
        let (x, y) = pip_xy_spec(feeds.layout.pip_position);
        blurred.push(
            normalize_video_filter_spec(
                "[1:v]"@,
                "[pip0]"@,
                feeds.pip->0.kind,
                pip_width,
                pip_height,
            ),
        ).push("["@ + before_pip + "][pip0]overlay=x="@ + x + ":y="@ + y
            + ":format=auto[program_pip]"@)
    } else {
        blurred
    };
    let cur = label_after_pip(feeds, blur);
    let with_overlay = if has_overlay {
        let index = if pip_active(feeds) {
            "2"@
        } else {
            "1"@
        };
        with_pip.push("["@ + index + ":v]["@ + cur
            + "]scale2ref[program_ovr][program_ref];[program_ref][program_ovr]overlay=0:0:format=auto[program_overlay]"@)
    } else {
        with_pip
    };
    let last = if has_overlay {
        "program_overlay"@
    } else {
        cur
    };
    with_overlay.push("["@ + last + "]"@ + text_layers() + correction_suffix(eq) + "[v_out]"@)
}

/// The colour-correction filter (FFmpeg's `eq`) chained after the text
/// layers, just before `[v_out]`, when there is one.
pub open spec fn correction_suffix(eq: Option<Seq<char>>) -> Seq<char> {
    match eq {
        Some(e) => ","@ + e,
        None => Seq::empty(),
    }
}

pub open spec fn composed_graph_spec(
    feeds: VideoFeedSelection,
    pip_width: u32,
    pip_height: u32,
    has_overlay: bool,
    encoder: EncoderProfile,
    blur: bool,
    eq: Option<Seq<char>>,
) -> Seq<char> {
    join(composed_parts(feeds, pip_width, pip_height, has_overlay, encoder, blur, eq), ";"@)
}

/// The program graph for a known overlay state. `pip_width`x`pip_height` is
/// the in-screen feed's size in pixels; `video_eq`, when given, is the
/// colour-correction filter applied last.
pub fn composed_filter_graph_for(
    feeds: &VideoFeedSelection,
    pip_width: u32,
    pip_height: u32,
    has_overlay: bool,
    encoder: &EncoderProfile,
    blur_background: bool,
    video_eq: Option<&str>,
) -> (r: String)
    ensures
        r@ == composed_graph_spec(
            *feeds,
            pip_width,
            pip_height,
            has_overlay,
            *encoder,
            blur_background,
            opt_view(video_eq),
        ),
{
    let ghost parts_spec = composed_parts(
        *feeds,
        pip_width,
        pip_height,
        has_overlay,
        *encoder,
        blur_background,
        opt_view(video_eq),
    );
    let mut parts: Vec<String> = Vec::new();
    push_string_item(
        &mut parts,
        normalize_video_filter(
            "[0:v]",
            "[program0]",
            feeds.primary.kind,
            encoder.width,
            encoder.height,
        ),
    );
    let mut current: &str = "program0";
    if blur_background {
        push_string_item(
            &mut parts,
            String::from_str("[program0]gblur=sigma=10:steps=2[program_blur]"),
        );
        current = "program_blur";
    }
    let pip_on = feeds.layout.pip_enabled && feeds.pip.is_some();
    if pip_on {
        match &feeds.pip {
            Some(pip) => {
                push_string_item(
                    &mut parts,
                    normalize_video_filter("[1:v]", "[pip0]", pip.kind, pip_width, pip_height),
                );
                let (x, y) = pip_overlay_xy(feeds.layout.pip_position, 24);
                let mut o = String::new();
                o.push_str("[");
                o.push_str(current);
                o.push_str("][pip0]overlay=x=");
                o.push_str(x);
                o.push_str(":y=");
                o.push_str(y);
                o.push_str(":format=auto[program_pip]");
                push_string_item(&mut parts, o);
                current = "program_pip";
            },
            None => {},
        }
    }
    assert(current@ == label_after_pip(*feeds, blur_background));
    if has_overlay {
        let mut o = String::new();
        o.push_str("[");
        if pip_on {
            o.push_str("2");
        } else {
            o.push_str("1");
        }
        o.push_str(":v][");
        o.push_str(current);
        o.push_str(
            "]scale2ref[program_ovr][program_ref];[program_ref][program_ovr]overlay=0:0:format=auto[program_overlay]",
        );
        push_string_item(&mut parts, o);
        current = "program_overlay";
    }
    let mut last = String::new();
    last.push_str("[");
    last.push_str(current);
    last.push_str("]");
    push_text_layers(&mut last);
    let ghost before_eq = last@;
    match video_eq {
        Some(e) => {
            last.push_str(",");
            last.push_str(e);
        },
        None => {},
    }
    assert(last@ =~= before_eq + correction_suffix(opt_view(video_eq)));
    last.push_str("[v_out]");
    assert(last@ =~= "["@ + current@ + "]"@ + text_layers() + correction_suffix(opt_view(video_eq))
        + "[v_out]"@);
    push_string_item(&mut parts, last);
    assert(sviews(parts@) =~= parts_spec);
    join_strings(&parts, ";")
}

/// Build the program feed filter graph before PNG overlays, chat text and
/// captions. The second component tells whether the PNG at `overlay_path`
/// is used.
pub fn build_composed_filter_graph(
    feeds: &VideoFeedSelection,
    pip_width: u32,
    pip_height: u32,
    overlay_path: &str,
    encoder: &EncoderProfile,
    blur_background: bool,
) -> (r: (String, bool))
    ensures
        overlay_choice(overlay_path@, r.1),
        r.0@ == composed_graph_spec(*feeds, pip_width, pip_height, r.1, *encoder, blur_background, None),
{
    let has_overlay = overlay_in_use(overlay_path);
    (
        composed_filter_graph_for(
            feeds,
            pip_width,
            pip_height,
            has_overlay,
            encoder,
            blur_background,
            None,
        ),
        has_overlay,
    )
}


// ---------------------------------------------------------------------------
// Argument vectors
// ---------------------------------------------------------------------------
/// The arguments of a single-input broadcast: camera and microphone from
/// AVFoundation at 30 fps, an optional PNG input, the filter graph, x264 at
/// 3000k and AAC at 160k/44.1 kHz, then either FLV to `server_url` +
/// `key` or, when recording, a `tee` to that URL and the local capture file.
pub open spec fn ffmpeg_args_spec(
    cam: Seq<char>,
    mic: Seq<char>,
    overlay_path: Seq<char>,
    server_url: Seq<char>,
    key: Seq<char>,
    enable_recording: bool,
    blur: bool,
    has_overlay: bool,
) -> Seq<Seq<char>> {
    let head = seq![
        "-hide_banner"@,
        "-loglevel"@,
        "info"@,
        "-f"@,
        "avfoundation"@,
        "-r"@,
        "30"@,
        "-i"@,
        cam + ":"@ + mic,
    ];
    let overlay_input = if has_overlay {
        seq!["-i"@, overlay_path]
    } else {
        seq![]
    };
    let encode = seq![
        "-filter_complex"@,
        filter_graph_spec(has_overlay, blur),
        "-c:v"@,
        "libx264"@,
        "-preset"@,
        "veryfast"@,
        "-b:v"@,
        "3000k"@,
        "-maxrate"@,
        "3000k"@,
        "-bufsize"@,
        "6000k"@,
        "-pix_fmt"@,
        "yuv420p"@,
        "-g"@,
        "60"@,
        "-c:a"@,
        "aac"@,
        "-b:a"@,
        "160k"@,
        "-ar"@,
        "44100"@,
    ];
    let output_url = server_url + key;
    let output = if enable_recording {
        seq![
            "-f"@,
            "tee"@,
            "-map"@,
            "[v_out]"@,
            "-map"@,
            "0:a"@,
            "[f=flv:onfail=ignore]"@ + output_url
                + "|[f=mp4:onfail=ignore]/Volumes/MOE/Recordings/live_capture.mp4"@,
        ]
    } else {
        seq!["-f"@, "flv"@, "-map"@, "[v_out]"@, "-map"@, "0:a"@, output_url]
    };
    head + overlay_input + encode + output
}

fn push_items(v: &mut Vec<String>, items: &[&str])
    ensures
        sviews(final(v)@) == sviews(old(v)@) + items@.map_values(|s: &str| s@),
{
    let ghost start = sviews(v@);
    for i in 0..items.len()
        invariant
            sviews(v@) == start + items@.take(i as int).map_values(|s: &str| s@),
    {
        push_str_item(v, items[i]);
        assert(items@.take(i + 1).map_values(|s: &str| s@) =~= items@.take(i as int).map_values(
            |s: &str| s@,
        ).push(items@[i as int]@));
    }
    assert(items@.take(items@.len() as int) == items@);
}

/// The broadcast arguments for a known overlay state.
pub fn ffmpeg_args_for(
    cam: &str,
    mic: &str,
    overlay_path: &str,
    server_url: &str,
    key: &str,
    enable_recording: bool,
    blur_background: bool,
    has_overlay: bool,
) -> (r: Vec<String>)
    ensures
        sviews(r@) == ffmpeg_args_spec(
            cam@,
            mic@,
            overlay_path@,
            server_url@,
            key@,
            enable_recording,
            blur_background,
            has_overlay,
        ),
{
    let mut args: Vec<String> = Vec::new();
    push_items(
        &mut args,
        &["-hide_banner", "-loglevel", "info", "-f", "avfoundation", "-r", "30", "-i"],
    );
    let mut input = String::from_str(cam);
    input.push_str(":");
    input.push_str(mic);
    push_string_item(&mut args, input);
    let ghost a1 = sviews(args@);
    if has_overlay {
        push_str_item(&mut args, "-i");
        push_str_item(&mut args, overlay_path);
    }
    let ghost a2 = sviews(args@);
    push_str_item(&mut args, "-filter_complex");
    push_string_item(&mut args, filter_graph_for(has_overlay, blur_background));
    push_items(
        &mut args,
        &[
            "-c:v",
            "libx264",
            "-preset",
            "veryfast",
            "-b:v",
            "3000k",
            "-maxrate",
            "3000k",
            "-bufsize",
            "6000k",
            "-pix_fmt",
            "yuv420p",
            "-g",
            "60",
            "-c:a",
            "aac",
            "-b:a",
            "160k",
            "-ar",
            "44100",
        ],
    );
    let ghost a3 = sviews(args@);
    let mut output_url = String::from_str(server_url);
    output_url.push_str(key);
    if enable_recording {
        push_items(&mut args, &["-f", "tee", "-map", "[v_out]", "-map", "0:a"]);
        let mut tee = String::from_str("[f=flv:onfail=ignore]");
        tee.push_str(output_url.as_str());
        tee.push_str("|[f=mp4:onfail=ignore]/Volumes/MOE/Recordings/live_capture.mp4");
        push_string_item(&mut args, tee);
    } else {
        push_items(&mut args, &["-f", "flv", "-map", "[v_out]", "-map", "0:a"]);
        push_string_item(&mut args, output_url);
    }
    assert(sviews(args@) =~= ffmpeg_args_spec(
        cam@,
        mic@,
        overlay_path@,
        server_url@,
        key@,
        enable_recording,
        blur_background,
        has_overlay,
    ));
    args
}

/// Build the complete FFmpeg argument vector for a broadcast session. The
/// PNG input is used when `overlay_path` is non-empty and a file is there.
pub fn build_ffmpeg_args(
    cam: &str,
    mic: &str,
    overlay_path: &str,
    server_url: &str,
    key: &str,
    enable_recording: bool,
    blur_background: bool,
) -> (r: Vec<String>)
    ensures
        exists|used: bool|
            overlay_choice(overlay_path@, used) && sviews(r@) == #[trigger] ffmpeg_args_spec(
                cam@,
                mic@,
                overlay_path@,
                server_url@,
                key@,
                enable_recording,
                blur_background,
                used,
            ),
{
    let (_graph, has_overlay) = build_filter_graph(overlay_path, blur_background);
    ffmpeg_args_for(
        cam,
        mic,
        overlay_path,
        server_url,
        key,
        enable_recording,
        blur_background,
        has_overlay,
    )
}

/// Index of the microphone input: after the program input, the in-screen
/// input when active, and the PNG input when used.
pub open spec fn audio_input_index(feeds: VideoFeedSelection, has_overlay: bool) -> nat {
    1 + (if pip_active(feeds) {
        1nat
    } else {
        0nat
    }) + (if has_overlay {
        1nat
    } else {
        0nat
    })
}

/// What the encoder settings allow: doubled bitrate and frame rate fit in `u32`.
pub open spec fn encoder_in_range(encoder: EncoderProfile) -> bool {
    encoder.video_bitrate_kbps * 2 <= u32::MAX && encoder.fps * 2 <= u32::MAX
}

/// The fragmented-MP4 flags that keep a recording playable if FFmpeg stops abruptly.
pub open spec fn frag_flags() -> Seq<char> {
    "+frag_keyframe+empty_moov+default_base_moof"@
}

/// The output arguments: a `tee` to the stream (aborting on failure) and the
/// recording (ignoring failure), plain FLV, plain fragmented MP4, or no output.
pub open spec fn session_output_spec(
    output_url: Option<Seq<char>>,
    recording_path: Option<Seq<char>>,
) -> Seq<Seq<char>> {
    match (output_url, recording_path) {
        (Some(url), Some(path)) => seq![
            "-f"@,
            "tee"@,
            "[f=flv:onfail=abort]"@ + url + "|[f=mp4:movflags="@ + frag_flags() + ":onfail=ignore]"@
                + path,
        ],
        (Some(url), None) => seq!["-f"@, "flv"@, url],
        (None, Some(path)) => seq!["-f"@, "mp4"@, "-movflags"@, frag_flags(), path],
        (None, None) => seq!["-f"@, "null"@, "-"@],
    }
}

/// The input arguments of a session: the program source (and the in-screen
/// source when active) from AVFoundation at the encoder's frame rate, the
/// PNG when used, then the microphone.
pub open spec fn session_inputs_spec(
    feeds: VideoFeedSelection,
    mic: Seq<char>,
    overlay_path: Seq<char>,
    encoder: EncoderProfile,
    has_overlay: bool,
) -> Seq<Seq<char>> {
    let fps = decimal(encoder.fps as nat);
    let head = seq![
        "-hide_banner"@,
        "-loglevel"@,
        "info"@,
        "-stats"@,
        "-f"@,
        "avfoundation"@,
        "-framerate"@,
        fps,
        "-i"@,
        feeds.primary.avfoundation_name@ + ":"@,
    ];
    let pip_input = if pip_active(feeds) {
        seq![
            "-f"@,
            "avfoundation"@,
            "-framerate"@,
            fps,
            "-i"@,
            feeds.pip->0.avfoundation_name@ + ":"@,
        ]
    } else {
        seq![]
    };
    let overlay_input = if has_overlay {
        seq!["-i"@, overlay_path]
    } else {
        seq![]
    };
    head + pip_input + overlay_input + seq!["-f"@, "avfoundation"@, "-i"@, ":"@ + mic]
}

/// The composed graph, mapped to `[v_out]` and the microphone's audio.
pub open spec fn session_mapping_spec(
    feeds: VideoFeedSelection,
    pip_width: u32,
    pip_height: u32,
    encoder: EncoderProfile,
    blur: bool,
    has_overlay: bool,
    eq: Option<Seq<char>>,
) -> Seq<Seq<char>> {
    seq![
        "-filter_complex"@,
        composed_graph_spec(feeds, pip_width, pip_height, has_overlay, encoder, blur, eq),
        "-map"@,
        "[v_out]"@,
        "-map"@,
        decimal(audio_input_index(feeds, has_overlay)) + ":a"@,
    ]
}

/// The audio filter chain when there is one, then x264 and AAC settings
/// from the encoder profile (buffer twice the video bitrate, keyframes every
/// two seconds, 48 kHz audio).
pub open spec fn session_encode_spec(
    encoder: EncoderProfile,
    audio_filter_parts: Seq<Seq<char>>,
) -> Seq<Seq<char>> {
    let audio_filters = if audio_filter_parts.len() > 0 {
        seq!["-af"@, join(audio_filter_parts, ","@)]
    } else {
        seq![]
    };
    let vb = decimal(encoder.video_bitrate_kbps as nat) + "k"@;
    audio_filters + seq![
        "-c:v"@,
        "libx264"@,
        "-preset"@,
        "veryfast"@,
        "-b:v"@,
        vb,
        "-maxrate"@,
        vb,
        "-bufsize"@,
        decimal((encoder.video_bitrate_kbps * 2) as nat) + "k"@,
        "-pix_fmt"@,
        "yuv420p"@,
        "-g"@,
        decimal((encoder.fps * 2) as nat),
        "-c:a"@,
        "aac"@,
        "-b:a"@,
        decimal(encoder.audio_bitrate_kbps as nat) + "k"@,
        "-ar"@,
        "48000"@,
    ]
}

/// The arguments of a session: inputs, graph mapping, encoding, outputs.
pub open spec fn session_args_spec(
    feeds: VideoFeedSelection,
    pip_width: u32,
    pip_height: u32,
    mic: Seq<char>,
    overlay_path: Seq<char>,
    output_url: Option<Seq<char>>,
    recording_path: Option<Seq<char>>,
    encoder: EncoderProfile,
    blur: bool,
    audio_filter_parts: Seq<Seq<char>>,
    eq: Option<Seq<char>>,
    has_overlay: bool,
) -> Seq<Seq<char>> {
    session_inputs_spec(feeds, mic, overlay_path, encoder, has_overlay) + session_mapping_spec(
        feeds,
        pip_width,
        pip_height,
        encoder,
        blur,
        has_overlay,
        eq,
    ) + session_encode_spec(encoder, audio_filter_parts) + session_output_spec(
        output_url,
        recording_path,
    )
}

/// How many inputs an FFmpeg argument list opens: its `-i` arguments.
pub open spec fn input_count(args: Seq<Seq<char>>) -> nat
    decreases args.len(),
{
    if args.len() == 0 {
        0
    } else {
        input_count(args.drop_last()) + if args.last() == "-i"@ {
            1nat
        } else {
            0nat
        }
    }
}

proof fn lemma_input_count_concat(a: Seq<Seq<char>>, b: Seq<Seq<char>>)
    ensures
        input_count(a + b) == input_count(a) + input_count(b),
    decreases b.len(),
{
    if b.len() > 0 {
        lemma_input_count_concat(a, b.drop_last());
        assert((a + b).drop_last() =~= a + b.drop_last());
    } else {
        assert(a + b =~= a);
    }
}

proof fn lemma_input_count_one(x: Seq<char>)
    ensures
        input_count(seq![x]) == if x == "-i"@ {
            1nat
        } else {
            0nat
        },
{
    reveal_with_fuel(input_count, 2);
    assert(seq![x].drop_last() =~= Seq::<Seq<char>>::empty());
    assert(seq![x].last() == x);
}

/// `input_count` of a list, read element by element.
proof fn lemma_input_count_elems(args: Seq<Seq<char>>, k: nat)
    requires
        k <= args.len(),
        forall|j: int| 0 <= j < args.len() ==> #[trigger] args[j] != "-i"@ || j == k,
        k < args.len() ==> args[k as int] == "-i"@,
    ensures
        input_count(args) == if k < args.len() {
            1nat
        } else {
            0nat
        },
    decreases args.len(),
{
    if args.len() > 0 {
        let d = args.drop_last();
        if k < args.len() - 1 {
            lemma_input_count_elems(d, k);
        } else {
            lemma_input_count_elems(d, d.len());
        }
    }
}

/// A decimal numeral is never the `-i` option.
proof fn lemma_decimal_not_input(n: nat)
    ensures
        decimal(n) != "-i"@,
    decreases n,
{
    reveal_strlit("-i");
    let d = decimal(n);
    if n >= 10 {
        assert(d.last() == crate::text::digit_char((n % 10) as int));
    }
    assert(d.last() != 'i');
}

/// A device input (`name:` or `:mic`) is never the `-i` option.
proof fn lemma_device_not_input(name: Seq<char>)
    ensures
        name + ":"@ != "-i"@,
        ":"@ + name != "-i"@,
{
    reveal_strlit("-i");
    reveal_strlit(":");
    assert((name + ":"@).last() == ':');
    assert((":"@ + name)[0] == ':');
}

/// The inputs a session opens, counted: one program source, the in-screen
/// source when active, the PNG when used, the microphone.
proof fn lemma_session_input_counts(
    feeds: VideoFeedSelection,
    mic: Seq<char>,
    overlay_path: Seq<char>,
    encoder: EncoderProfile,
    has_overlay: bool,
)
    requires
        has_overlay ==> overlay_path != "-i"@,
    ensures
        ({
            let ins = session_inputs_spec(feeds, mic, overlay_path, encoder, has_overlay);
            let n = ins.len();
            &&& n >= 4
            &&& ins[n - 2] == "-i"@
            &&& ins[n - 1] == ":"@ + mic
            &&& input_count(ins.take(n - 2)) == audio_input_index(feeds, has_overlay)
            &&& has_overlay ==> n >= 6 && ins[n - 6] == "-i"@ && ins[n - 5] == overlay_path
                && input_count(ins.take(n - 6)) == audio_input_index(feeds, false)
        }),
{
    reveal_strlit("-i");
    reveal_strlit("-hide_banner");
    reveal_strlit("-loglevel");
    reveal_strlit("info");
    reveal_strlit("-stats");
    reveal_strlit("-f");
    reveal_strlit("avfoundation");
    reveal_strlit("-framerate");
    let fps = decimal(encoder.fps as nat);
    lemma_decimal_not_input(encoder.fps as nat);
    assert("-hide_banner"@.len() != "-i"@.len());
    assert("-loglevel"@.len() != "-i"@.len());
    assert("info"@.len() != "-i"@.len());
    assert("-stats"@.len() != "-i"@.len());
    assert("-f"@[1] != "-i"@[1]);
    assert("avfoundation"@.len() != "-i"@.len());
    assert("-framerate"@.len() != "-i"@.len());
    lemma_device_not_input(feeds.primary.avfoundation_name@);
    lemma_device_not_input(mic);
    let head = seq![
        "-hide_banner"@,
        "-loglevel"@,
        "info"@,
        "-stats"@,
        "-f"@,
        "avfoundation"@,
        "-framerate"@,
        fps,
        "-i"@,
        feeds.primary.avfoundation_name@ + ":"@,
    ];
    lemma_input_count_elems(head, 8);
    let pip_input = if pip_active(feeds) {
        lemma_device_not_input(feeds.pip->0.avfoundation_name@);
        seq![
            "-f"@,
            "avfoundation"@,
            "-framerate"@,
            fps,
            "-i"@,
            feeds.pip->0.avfoundation_name@ + ":"@,
        ]
    } else {
        seq![]
    };
    if pip_active(feeds) {
        lemma_input_count_elems(pip_input, 4);
    } else {
        lemma_input_count_elems(pip_input, 0);
    }
    let overlay_input = if has_overlay {
        seq!["-i"@, overlay_path]
    } else {
        seq![]
    };
    let tail = seq!["-f"@, "avfoundation"@, "-i"@, ":"@ + mic];
    let ins = head + pip_input + overlay_input + tail;
    assert(ins == session_inputs_spec(feeds, mic, overlay_path, encoder, has_overlay));
    lemma_input_count_concat(head, pip_input);
    let front = seq!["-f"@, "avfoundation"@];
    lemma_input_count_elems(front, 2);
    if has_overlay {
        let opened = seq!["-i"@];
        lemma_input_count_one("-i"@);
        lemma_input_count_concat(head + pip_input, opened);
        assert(ins.take(ins.len() - 2) =~= (head + pip_input) + (opened + (seq![overlay_path] + front)));
        lemma_input_count_concat(seq![overlay_path], front);
        lemma_input_count_concat(opened, seq![overlay_path] + front);
        lemma_input_count_concat(head + pip_input, opened + (seq![overlay_path] + front));
        lemma_input_count_one(overlay_path);
        assert(ins.take(ins.len() - 6) =~= head + pip_input);
    } else {
        assert(ins.take(ins.len() - 2) =~= (head + pip_input) + front);
        lemma_input_count_concat(head + pip_input, front);
    }
}

/// A session takes its audio from the microphone: in its arguments the
/// audio map names the input that the microphone's `-i` opens, numbered
/// from 0 by the `-i` arguments before it (a PNG named `-i` excepted).
pub proof fn law_audio_maps_microphone(
    feeds: VideoFeedSelection,
    pip_width: u32,
    pip_height: u32,
    mic: Seq<char>,
    overlay_path: Seq<char>,
    output_url: Option<Seq<char>>,
    recording_path: Option<Seq<char>>,
    encoder: EncoderProfile,
    blur: bool,
    audio_filter_parts: Seq<Seq<char>>,
    eq: Option<Seq<char>>,
    has_overlay: bool,
)
    requires
        has_overlay ==> overlay_path != "-i"@,
    ensures
        ({
            let args = session_args_spec(
                feeds,
                pip_width,
                pip_height,
                mic,
                overlay_path,
                output_url,
                recording_path,
                encoder,
                blur,
                audio_filter_parts,
                eq,
                has_overlay,
            );
            let n = session_inputs_spec(feeds, mic, overlay_path, encoder, has_overlay).len() as int;
            &&& args[n - 2] == "-i"@
            &&& args[n - 1] == ":"@ + mic
            &&& args[n + 4] == "-map"@
            &&& args[n + 5] == decimal(input_count(args.take(n - 2))) + ":a"@
        }),
{
    let ins = session_inputs_spec(feeds, mic, overlay_path, encoder, has_overlay);
    lemma_session_input_counts(feeds, mic, overlay_path, encoder, has_overlay);
    let args = session_args_spec(
        feeds,
        pip_width,
        pip_height,
        mic,
        overlay_path,
        output_url,
        recording_path,
        encoder,
        blur,
        audio_filter_parts,
        eq,
        has_overlay,
    );
    let n = ins.len();
    assert(args.take(n - 2) =~= ins.take(n - 2));
}

/// The PNG overlay stage of a session's program graph reads the input that
/// the PNG's `-i` opens among the session's inputs, numbered from 0 by the
/// `-i` arguments before it (a PNG named `-i` excepted).
pub proof fn law_overlay_reads_png_input(
    feeds: VideoFeedSelection,
    pip_width: u32,
    pip_height: u32,
    mic: Seq<char>,
    overlay_path: Seq<char>,
    encoder: EncoderProfile,
    blur: bool,
    eq: Option<Seq<char>>,
)
    requires
        overlay_path != "-i"@,
    ensures
        ({
            let ins = session_inputs_spec(feeds, mic, overlay_path, encoder, true);
            let parts = composed_parts(feeds, pip_width, pip_height, true, encoder, blur, eq);
            let n = ins.len();
            &&& ins[n - 6] == "-i"@
            &&& ins[n - 5] == overlay_path
            &&& parts.len() >= 2
            &&& crate::text::starts_with(parts[parts.len() - 2], "["@ + decimal(input_count(ins.take(n - 6))) + ":v]"@)
        }),
{
    lemma_session_input_counts(feeds, mic, overlay_path, encoder, true);
    let parts = composed_parts(feeds, pip_width, pip_height, true, encoder, blur, eq);
    let index = if pip_active(feeds) {
        "2"@
    } else {
        "1"@
    };
    reveal_strlit("1");
    reveal_strlit("2");
    assert(decimal(1) =~= "1"@);
    assert(decimal(2) =~= "2"@);
    let k = audio_input_index(feeds, false);
    assert(decimal(k) == index);
    let cur = label_after_pip(feeds, blur);
    let rest = "]scale2ref[program_ovr][program_ref];[program_ref][program_ovr]overlay=0:0:format=auto[program_overlay]"@;
    let stage = parts[parts.len() - 2];
    assert(stage == "["@ + index + ":v]["@ + cur + rest);
    reveal_strlit(":v][");
    reveal_strlit(":v]");
    reveal_strlit("[");
    assert(":v]["@ =~= ":v]"@ + "["@);
    let p = "["@ + index + ":v]"@;
    assert(stage =~= p + ("["@ + cur + rest));
    assert(stage.subrange(0, p.len() as int) =~= p);
}

fn kbps(n: u64) -> (r: String)
    ensures
        r@ == decimal(n as nat) + "k"@,
{
    let mut s = decimal_string(n);
    s.push_str("k");
    s
}

pub open spec fn opt_view(o: Option<&str>) -> Option<Seq<char>> {
    match o {
        Some(s) => Some(s@),
        None => None,
    }
}

fn session_inputs(
    feeds: &VideoFeedSelection,
    mic: &str,
    overlay_path: &str,
    encoder: &EncoderProfile,
    has_overlay: bool,
) -> (r: Vec<String>)
    ensures
        sviews(r@) == session_inputs_spec(*feeds, mic@, overlay_path@, *encoder, has_overlay),
{
    let pip_on = feeds.layout.pip_enabled && feeds.pip.is_some();
    let mut args: Vec<String> = Vec::new();
    push_items(
        &mut args,
        &["-hide_banner", "-loglevel", "info", "-stats", "-f", "avfoundation", "-framerate"],
    );
    push_string_item(&mut args, decimal_string(encoder.fps as u64));
    push_str_item(&mut args, "-i");
    let mut primary = feeds.primary.avfoundation_name.clone();
    primary.push_str(":");
    push_string_item(&mut args, primary);
    let ghost a1 = sviews(args@);
    if pip_on {
        match &feeds.pip {
            Some(pip) => {
                push_items(&mut args, &["-f", "avfoundation", "-framerate"]);
                push_string_item(&mut args, decimal_string(encoder.fps as u64));
                push_str_item(&mut args, "-i");
                let mut p = pip.avfoundation_name.clone();
                p.push_str(":");
                push_string_item(&mut args, p);
            },
            None => {},
        }
    }
    let ghost a2 = sviews(args@);
    if has_overlay {
        push_str_item(&mut args, "-i");
        push_str_item(&mut args, overlay_path);
    }
    push_items(&mut args, &["-f", "avfoundation", "-i"]);
    let mut m = String::from_str(":");
    m.push_str(mic);
    push_string_item(&mut args, m);
    assert(sviews(args@) =~= session_inputs_spec(
        *feeds,
        mic@,
        overlay_path@,
        *encoder,
        has_overlay,
    ));
    args
}

fn session_mapping(
    feeds: &VideoFeedSelection,
    pip_width: u32,
    pip_height: u32,
    encoder: &EncoderProfile,
    blur_background: bool,
    has_overlay: bool,
    video_eq: Option<&str>,
) -> (r: Vec<String>)
    ensures
        sviews(r@) == session_mapping_spec(
            *feeds,
            pip_width,
            pip_height,
            *encoder,
            blur_background,
            has_overlay,
            opt_view(video_eq),
        ),
{
    let pip_on = feeds.layout.pip_enabled && feeds.pip.is_some();
    let mut args: Vec<String> = Vec::new();
    push_str_item(&mut args, "-filter_complex");
    push_string_item(
        &mut args,
        composed_filter_graph_for(
            feeds,
            pip_width,
            pip_height,
            has_overlay,
            encoder,
            blur_background,
            video_eq,
        ),
    );
    push_items(&mut args, &["-map", "[v_out]", "-map"]);
    let audio_input_index: u64 = 1 + (if pip_on {
        1u64
    } else {
        0u64
    }) + (if has_overlay {
        1u64
    } else {
        0u64
    });
    let mut map_audio = decimal_string(audio_input_index);
    map_audio.push_str(":a");
    push_string_item(&mut args, map_audio);
    assert(sviews(args@) =~= session_mapping_spec(
        *feeds,
        pip_width,
        pip_height,
        *encoder,
        blur_background,
        has_overlay,
        opt_view(video_eq),
    ));
    args
}

fn session_encode(encoder: &EncoderProfile, audio_filter_parts: &Vec<String>) -> (r: Vec<String>)
    requires
        encoder_in_range(*encoder),
    ensures
        sviews(r@) == session_encode_spec(*encoder, sviews(audio_filter_parts@)),
{
    let mut args: Vec<String> = Vec::new();
    if audio_filter_parts.len() > 0 {
        push_str_item(&mut args, "-af");
        push_string_item(&mut args, join_strings(audio_filter_parts, ","));
    }
    let ghost a1 = sviews(args@);
    push_items(&mut args, &["-c:v", "libx264", "-preset", "veryfast", "-b:v"]);
    push_string_item(&mut args, kbps(encoder.video_bitrate_kbps as u64));
    push_str_item(&mut args, "-maxrate");
    push_string_item(&mut args, kbps(encoder.video_bitrate_kbps as u64));
    push_str_item(&mut args, "-bufsize");
    push_string_item(&mut args, kbps((encoder.video_bitrate_kbps * 2) as u64));
    push_items(&mut args, &["-pix_fmt", "yuv420p", "-g"]);
    push_string_item(&mut args, decimal_string((encoder.fps * 2) as u64));
    push_items(&mut args, &["-c:a", "aac", "-b:a"]);
    push_string_item(&mut args, kbps(encoder.audio_bitrate_kbps as u64));
    push_items(&mut args, &["-ar", "48000"]);
    assert(sviews(args@) =~= session_encode_spec(*encoder, sviews(audio_filter_parts@)));
    args
}

fn session_output(output_url: Option<&str>, recording_path: Option<&str>) -> (r: Vec<String>)
    ensures
        sviews(r@) == session_output_spec(opt_view(output_url), opt_view(recording_path)),
{
    let mut args: Vec<String> = Vec::new();
    match (output_url, recording_path) {
        (Some(url), Some(path)) => {
            push_items(&mut args, &["-f", "tee"]);
            let mut t = String::from_str("[f=flv:onfail=abort]");
            t.push_str(url);
            t.push_str("|[f=mp4:movflags=");
            t.push_str("+frag_keyframe+empty_moov+default_base_moof");
            t.push_str(":onfail=ignore]");
            t.push_str(path);
            push_string_item(&mut args, t);
        },
        (Some(url), None) => {
            push_items(&mut args, &["-f", "flv"]);
            push_str_item(&mut args, url);
        },
        (None, Some(path)) => {
            push_items(
                &mut args,
                &["-f", "mp4", "-movflags", "+frag_keyframe+empty_moov+default_base_moof"],
            );
            push_str_item(&mut args, path);
        },
        (None, None) => {
            push_items(&mut args, &["-f", "null", "-"]);
        },
    }
    assert(sviews(args@) =~= session_output_spec(opt_view(output_url), opt_view(recording_path)));
    args
}

fn append_items(dst: &mut Vec<String>, src: Vec<String>)
    ensures
        sviews(final(dst)@) == sviews(old(dst)@) + sviews(src@),
{
    let mut src = src;
    let ghost s0 = sviews(src@);
    dst.append(&mut src);
    assert(sviews(dst@) =~= sviews(old(dst)@) + s0);
}

/// The session arguments for a known overlay state. `audio_filter_parts`
/// are the FFmpeg audio filters to chain with `,` (none: no `-af`).
pub fn session_args_for(
    feeds: &VideoFeedSelection,
    pip_width: u32,
    pip_height: u32,
    mic: &str,
    overlay_path: &str,
    output_url: Option<&str>,
    recording_path: Option<&str>,
    encoder: &EncoderProfile,
    blur_background: bool,
    audio_filter_parts: &Vec<String>,
    video_eq: Option<&str>,
    has_overlay: bool,
) -> (r: Vec<String>)
    requires
        encoder_in_range(*encoder),
    ensures
        sviews(r@) == session_args_spec(
            *feeds,
            pip_width,
            pip_height,
            mic@,
            overlay_path@,
            opt_view(output_url),
            opt_view(recording_path),
            *encoder,
            blur_background,
            sviews(audio_filter_parts@),
            opt_view(video_eq),
            has_overlay,
        ),
{
    let mut args = session_inputs(feeds, mic, overlay_path, encoder, has_overlay);
    append_items(
        &mut args,
        session_mapping(feeds, pip_width, pip_height, encoder, blur_background, has_overlay, video_eq),
    );
    append_items(&mut args, session_encode(encoder, audio_filter_parts));
    append_items(&mut args, session_output(output_url, recording_path));
    args
}

/// The session arguments for a selection of feeds; the PNG input is used
/// when `overlay_path` is non-empty and a file is there.
pub fn build_session_ffmpeg_args_for_feeds(
    feeds: &VideoFeedSelection,
    pip_width: u32,
    pip_height: u32,
    mic: &str,
    overlay_path: &str,
    output_url: Option<&str>,
    recording_path: Option<&str>,
    encoder: &EncoderProfile,
    blur_background: bool,
    audio_filter_parts: &Vec<String>,
    video_eq: Option<&str>,
) -> (r: Vec<String>)
    requires
        encoder_in_range(*encoder),
    ensures
        exists|used: bool|
            overlay_choice(overlay_path@, used) && sviews(r@) == #[trigger] session_args_spec(
                *feeds,
                pip_width,
                pip_height,
                mic@,
                overlay_path@,
                opt_view(output_url),
                opt_view(recording_path),
                *encoder,
                blur_background,
                sviews(audio_filter_parts@),
                opt_view(video_eq),
                used,
            ),
{
    let has_overlay = overlay_in_use(overlay_path);
    session_args_for(
        feeds,
        pip_width,
        pip_height,
        mic,
        overlay_path,
        output_url,
        recording_path,
        encoder,
        blur_background,
        audio_filter_parts,
        video_eq,
        has_overlay,
    )
}

/// The session arguments for the single camera `cam`.
pub fn build_session_ffmpeg_args(
    cam: &str,
    mic: &str,
    overlay_path: &str,
    output_url: Option<&str>,
    recording_path: Option<&str>,
    encoder: &EncoderProfile,
    blur_background: bool,
    audio_filter_parts: &Vec<String>,
    video_eq: Option<&str>,
) -> (r: Vec<String>)
    requires
        encoder_in_range(*encoder),
    ensures
        exists|feeds: VideoFeedSelection, has_overlay: bool|
            #![trigger is_legacy_feeds(feeds, cam@), session_args_spec(feeds, 2, 2, mic@, overlay_path@, opt_view(output_url), opt_view(recording_path), *encoder, blur_background, sviews(audio_filter_parts@), opt_view(video_eq), has_overlay)]
            is_legacy_feeds(feeds, cam@) && overlay_choice(overlay_path@, has_overlay) && sviews(r@)
                == session_args_spec(
                feeds,
                2,
                2,
                mic@,
                overlay_path@,
                opt_view(output_url),
                opt_view(recording_path),
                *encoder,
                blur_background,
                sviews(audio_filter_parts@),
                opt_view(video_eq),
                has_overlay,
            ),
{
    let feeds = legacy_video_feeds(cam);
    let r = build_session_ffmpeg_args_for_feeds(
        &feeds,
        2,
        2,
        mic,
        overlay_path,
        output_url,
        recording_path,
        encoder,
        blur_background,
        audio_filter_parts,
        video_eq,
    );
    r
}

} // verus!
