//! Reading FFmpeg's progress lines: which `key=value` fields a line carries
//! and how the integer counters and the last line change. Rates (`fps`,
//! `bitrate`, `speed`) are decimal numbers; whether each one parsed is
//! handed in by the caller.
use vstd::prelude::*;

use crate::ffmpeg::{redact_url, redact_url_spec, url_redactable};
use crate::text::{
    chars_of, contains, contains_chars, copy_chars, ends_with, ends_with_chars, lower,
    lower_chars, parse_u64, parse_uint, replace_all, replace_chars, starts_with,
    starts_with_chars, string_of, trim, trim_chars, trim_end_by, trail_start, TrimPattern,
};
use crate::transcript::{split_whitespace_chars, split_ws};

verus! {

/// The progress fields FFmpeg reports.
#[derive(Clone, Copy, Debug, PartialEq, Eq, Structural)]
pub enum TelemetryField {
    Frame,
    Fps,
    Bitrate,
    Speed,
    Drop,
}

/// One `key=value` field of a progress line, with the number text cut out.
#[derive(Clone, Debug, PartialEq)]
pub struct TelemetryEntry {
    pub field: TelemetryField,
    pub value: String,
}

/// The fields of a progress line, in order, and whether it reports an error.
#[derive(Clone, Debug, PartialEq)]
pub struct TelemetryScan {
    pub entries: Vec<TelemetryEntry>,
    pub reports_error: bool,
}

/// The integer part of the telemetry kept across lines.
#[derive(Clone, Debug, PartialEq)]
pub struct TelemetryCounters {
    pub frame: Option<u64>,
    pub dropped_frames: u64,
    pub errors: u64,
    pub last_line: Option<String>,
}

/// `s` without every trailing repetition of `p` (`str::trim_end_matches`).
pub open spec fn strip_suffix_all(s: Seq<char>, p: Seq<char>) -> Seq<char>
    decreases s.len(),
{
    if p.len() > 0 && ends_with(s, p) {
        strip_suffix_all(s.subrange(0, s.len() - p.len()), p)
    } else {
        s
    }
}

/// The field a word of a progress line carries, and its number text.
pub open spec fn classify_word(w: Seq<char>) -> Option<(TelemetryField, Seq<char>)> {
    if starts_with(w, "frame="@) {
        Some((TelemetryField::Frame, trim(w.skip(6))))
    } else if starts_with(w, "fps="@) {
        Some((TelemetryField::Fps, trim(w.skip(4))))
    } else if starts_with(w, "bitrate="@) {
        Some(
            (
                TelemetryField::Bitrate,
                strip_suffix_all(strip_suffix_all(w.skip(8), "kbits/s"@), "kb/s"@),
            ),
        )
    } else if starts_with(w, "speed="@) {
        Some((TelemetryField::Speed, trim_end_by(w.skip(6), TrimPattern::Char('x'))))
    } else if starts_with(w, "drop="@) {
        Some((TelemetryField::Drop, trim(w.skip(5))))
    } else {
        None
    }
}

/// The recognized fields of the words, in order.
pub open spec fn classify_words(ws: Seq<Seq<char>>) -> Seq<(TelemetryField, Seq<char>)>
    decreases ws.len(),
{
    if ws.len() == 0 {
        seq![]
    } else {
        match classify_word(ws.last()) {
            Some(e) => classify_words(ws.drop_last()).push(e),
            None => classify_words(ws.drop_last()),
        }
    }
}

/// The fields of a line, read after `= ` is closed up to `=`.
pub open spec fn scan_entries(line: Seq<char>) -> Seq<(TelemetryField, Seq<char>)> {
    classify_words(split_ws(replace_all(line, "= "@, "="@)))
}

/// A line mentions an error, an invalid value or a failure, in any case.
pub open spec fn reports_error_spec(line: Seq<char>) -> bool {
    let l = lower(line);
    contains(l, "error"@) || contains(l, "invalid"@) || contains(l, "failed"@)
}

pub open spec fn entry_views(v: Seq<TelemetryEntry>) -> Seq<(TelemetryField, Seq<char>)> {
    v.map_values(|e: TelemetryEntry| (e.field, e.value@))
}

fn strip_suffix_all_chars(s: &Vec<char>, p: &Vec<char>) -> (r: Vec<char>)
    ensures
        r@ == strip_suffix_all(s@, p@),
{
    let mut cur = copy_chars(s, 0, s.len());
    assert(cur@ =~= s@);
    while p.len() > 0 && ends_with_chars(&cur, p)
        invariant
            strip_suffix_all(cur@, p@) == strip_suffix_all(s@, p@),
        decreases cur.len(),
    {
        let n = cur.len() - p.len();
        cur = copy_chars(&cur, 0, n);
    }
    cur
}

fn trim_end_x(s: &Vec<char>) -> (r: Vec<char>)
    ensures
        r@ == trim_end_by(s@, TrimPattern::Char('x')),
{
    let mut b: usize = s.len();
    while b > 0 && s[b - 1] == 'x'
        invariant
            0 <= b <= s.len(),
            trail_start(s@, TrimPattern::Char('x'), s@.len() as int) == trail_start(
                s@,
                TrimPattern::Char('x'),
                b as int,
            ),
        decreases b,
    {
        b = b - 1;
    }
    copy_chars(s, 0, b)
}

fn classify(w: &Vec<char>) -> (r: Option<TelemetryEntry>)
    ensures
        match classify_word(w@) {
            None => r is None,
            Some((f, v)) => r matches Some(e) && e.field == f && e.value@ == v,
        },
{
    let n = w.len();
    if starts_with_chars(w, &chars_of("frame=")) {
        proof {
            reveal_strlit("frame=");
        }
        let v = trim_chars(&copy_chars(w, 6, n));
        assert(w@.subrange(6, n as int) == w@.skip(6));
        Some(TelemetryEntry { field: TelemetryField::Frame, value: string_of(&v) })
    } else if starts_with_chars(w, &chars_of("fps=")) {
        proof {
            reveal_strlit("fps=");
        }
        let v = trim_chars(&copy_chars(w, 4, n));
        assert(w@.subrange(4, n as int) == w@.skip(4));
        Some(TelemetryEntry { field: TelemetryField::Fps, value: string_of(&v) })
    } else if starts_with_chars(w, &chars_of("bitrate=")) {
        proof {
            reveal_strlit("bitrate=");
        }
        let raw = copy_chars(w, 8, n);
        assert(w@.subrange(8, n as int) == w@.skip(8));
        let a = strip_suffix_all_chars(&raw, &chars_of("kbits/s"));
        let v = strip_suffix_all_chars(&a, &chars_of("kb/s"));
        Some(TelemetryEntry { field: TelemetryField::Bitrate, value: string_of(&v) })
    } else if starts_with_chars(w, &chars_of("speed=")) {
        proof {
            reveal_strlit("speed=");
        }
        let v = trim_end_x(&copy_chars(w, 6, n));
        assert(w@.subrange(6, n as int) == w@.skip(6));
        Some(TelemetryEntry { field: TelemetryField::Speed, value: string_of(&v) })
    } else if starts_with_chars(w, &chars_of("drop=")) {
        proof {
            reveal_strlit("drop=");
        }
        let v = trim_chars(&copy_chars(w, 5, n));
        assert(w@.subrange(5, n as int) == w@.skip(5));
        Some(TelemetryEntry { field: TelemetryField::Drop, value: string_of(&v) })
    } else {
        None
    }
}

/// The progress fields of an FFmpeg status line and whether it reports an
/// error.
#[verifier::rlimit(30)]
pub fn scan_telemetry_line(line: &str) -> (r: TelemetryScan)
    ensures
        entry_views(r.entries@) == scan_entries(line@),
        r.reports_error == reports_error_spec(line@),
{
    let pat = chars_of("= ");
    let rep = chars_of("=");
    proof {
        reveal_strlit("= ");
    }
    let normalized = replace_chars(&chars_of(line), &pat, &rep);
    let words = split_whitespace_chars(&normalized);
    let ghost ws = crate::text::sviews(words@);
    let mut entries: Vec<TelemetryEntry> = Vec::new();
    for i in 0..words.len()
        invariant
            ws == crate::text::sviews(words@),
            entry_views(entries@) == classify_words(ws.take(i as int)),
    {
        assert(ws.take(i + 1).drop_last() == ws.take(i as int));
        assert(ws.take(i + 1).last() == words@[i as int]@);
        let w = chars_of(words[i].as_str());
        match classify(&w) {
            Some(e) => {
                let ghost before = entries@;
                entries.push(e);
                assert(entry_views(entries@) =~= entry_views(before).push(
                    (entries@.last().field, entries@.last().value@),
                ));
            },
            None => {},
        }
    }
    assert(ws.take(words.len() as int) == ws);
    let l = lower_chars(&chars_of(line));
    let reports_error = contains_chars(&l, &chars_of("error")) || contains_chars(
        &l,
        &chars_of("invalid"),
    ) || contains_chars(&l, &chars_of("failed"));
    TelemetryScan { entries, reports_error }
}

/// An integer field's text is read as `u64`.
pub open spec fn int_value(v: Seq<char>) -> Option<u64> {
    match parse_uint(v) {
        Some(n) => if n <= u64::MAX {
            Some(n as u64)
        } else {
            None
        },
        None => None,
    }
}

/// The frame count, dropped-frame count and change flag after the first
/// `k` entries; a rate counts as a change when the caller parsed it.
pub open spec fn fold_entries(
    frame: Option<u64>,
    dropped: u64,
    entries: Seq<(TelemetryField, Seq<char>)>,
    rate_parsed: Seq<bool>,
    k: int,
) -> (Option<u64>, u64, bool)
    decreases k,
{
    if k <= 0 {
        (frame, dropped, false)
    } else {
        let prev = fold_entries(frame, dropped, entries, rate_parsed, k - 1);
        let (f, v) = entries[k - 1];
        match f {
            TelemetryField::Frame => match int_value(v) {
                Some(n) => (Some(n), prev.1, true),
                None => prev,
            },
            TelemetryField::Drop => match int_value(v) {
                Some(n) => (prev.0, n, true),
                None => prev,
            },
            _ => if rate_parsed[k - 1] {
                (prev.0, prev.1, true)
            } else {
                prev
            },
        }
    }
}

/// Whether folding `scan` into `counters` changes the telemetry.
pub open spec fn telemetry_changes(
    counters: TelemetryCounters,
    scan: TelemetryScan,
    rate_parsed: Seq<bool>,
) -> bool {
    fold_entries(
        counters.frame,
        counters.dropped_frames,
        entry_views(scan.entries@),
        rate_parsed,
        scan.entries.len() as int,
    ).2 || scan.reports_error
}

/// Whether folding `scan` into `counters` would change the telemetry (and
/// so keep the line, which must then be redactable).
pub fn would_change(counters: &TelemetryCounters, scan: &TelemetryScan, rate_parsed: &Vec<bool>) -> (r: bool)
    requires
        rate_parsed.len() == scan.entries.len(),
    ensures
        r == telemetry_changes(*counters, *scan, rate_parsed@),
{
    let ghost es = entry_views(scan.entries@);
    let mut frame = counters.frame;
    let mut dropped = counters.dropped_frames;
    let mut changed = false;
    for i in 0..scan.entries.len()
        invariant
            rate_parsed.len() == scan.entries.len(),
            es == entry_views(scan.entries@),
            (frame, dropped, changed) == fold_entries(
                counters.frame,
                counters.dropped_frames,
                es,
                rate_parsed@,
                i as int,
            ),
    {
        let e = &scan.entries[i];
        assert(es[i as int] == (e.field, e.value@));
        match e.field {
            TelemetryField::Frame => {
                match parse_u64(&chars_of(e.value.as_str())) {
                    Some(n) => {
                        frame = Some(n);
                        changed = true;
                    },
                    None => {},
                }
            },
            TelemetryField::Drop => {
                match parse_u64(&chars_of(e.value.as_str())) {
                    Some(n) => {
                        dropped = n;
                        changed = true;
                    },
                    None => {},
                }
            },
            _ => {
                if rate_parsed[i] {
                    changed = true;
                }
            },
        }
    }
    changed || scan.reports_error
}

/// Folds a scanned line into the counters; `rate_parsed[i]` says whether
/// entry `i`, when it is a rate, parsed as a number. Returns whether the
/// telemetry changed; a changed line is kept, redacted, as the last line.
#[verifier::rlimit(30)]
pub fn apply_telemetry_scan(
    counters: &mut TelemetryCounters,
    line: &str,
    scan: &TelemetryScan,
    rate_parsed: &Vec<bool>,
) -> (changed: bool)
    requires
        rate_parsed.len() == scan.entries.len(),
        scan.reports_error ==> old(counters).errors < u64::MAX,
        telemetry_changes(*old(counters), *scan, rate_parsed@) ==> url_redactable(line@),
    ensures
        ({
            let (frame, dropped, any) = fold_entries(
                old(counters).frame,
                old(counters).dropped_frames,
                entry_views(scan.entries@),
                rate_parsed@,
                scan.entries.len() as int,
            );
            &&& changed == (any || scan.reports_error)
            &&& final(counters).frame == frame
            &&& final(counters).dropped_frames == dropped
            &&& final(counters).errors == if scan.reports_error {
                old(counters).errors + 1
            } else {
                old(counters).errors as int
            }
            &&& changed ==> (final(counters).last_line matches Some(l) && l@ == redact_url_spec(line@))
            &&& !changed ==> final(counters).last_line == old(counters).last_line
        }),
{
    let ghost es = entry_views(scan.entries@);
    let ghost f0 = counters.frame;
    let ghost d0 = counters.dropped_frames;
    let mut changed = false;
    for i in 0..scan.entries.len()
        invariant
            rate_parsed.len() == scan.entries.len(),
            es == entry_views(scan.entries@),
            (counters.frame, counters.dropped_frames, changed) == fold_entries(
                f0,
                d0,
                es,
                rate_parsed@,
                i as int,
            ),
            counters.errors == old(counters).errors,
            counters.last_line == old(counters).last_line,
    {
        let e = &scan.entries[i];
        assert(es[i as int] == (e.field, e.value@));
        match e.field {
            TelemetryField::Frame => {
                match parse_u64(&chars_of(e.value.as_str())) {
                    Some(n) => {
                        counters.frame = Some(n);
                        changed = true;
                    },
                    None => {},
                }
            },
            TelemetryField::Drop => {
                match parse_u64(&chars_of(e.value.as_str())) {
                    Some(n) => {
                        counters.dropped_frames = n;
                        changed = true;
                    },
                    None => {},
                }
            },
            _ => {
                if rate_parsed[i] {
                    changed = true;
                }
            },
        }
    }
    if scan.reports_error {
        counters.errors = counters.errors + 1;
        changed = true;
    }
    if changed {
        counters.last_line = Some(redact_url(line));
    }
    changed
}

/// Every progress line that mentions a failure, an error or an invalid
/// value, in any case, is counted as an error: its scan reports one, so
/// applying it bumps the error count and keeps the (redacted) line.
pub proof fn law_failure_lines_are_errors(
    line: Seq<char>,
    counters: TelemetryCounters,
    scan: TelemetryScan,
    rate_parsed: Seq<bool>,
)
    requires
        scan.reports_error == reports_error_spec(line),
        contains(lower(line), "failed"@) || contains(lower(line), "error"@) || contains(
            lower(line),
            "invalid"@,
        ),
    ensures
        scan.reports_error,
        telemetry_changes(counters, scan, rate_parsed),
{
}

} // verus!
