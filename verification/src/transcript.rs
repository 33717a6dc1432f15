//! Transcript text processing: token normalization, noise detection,
//! overlap trimming between model windows, word agreement, audio windowing,
//! and SRT/WebVTT caption files.
use vstd::prelude::*;

use crate::text::{
    char_is_alnum, char_is_ws, char_lower, chars_of, contains, contains_chars, decimal,
    is_alnum, is_ws, join, join_strings, lower_char, padded_decimal_chars, push_chars,
    push_decimal, string_of, sviews, trim, trim_chars, trim_str, vviews, zero_pad,
};

verus! {

/// Length of a live transcription window.
pub const LIVE_WINDOW_MS: u64 = 2_000;

/// How long the faster model's result waits for the slower one.
pub const LIVE_MERGE_DEADLINE_MS: u64 = 800;

/// How many committed words are kept as context for the next window.
pub const CONTEXT_TAIL_WORDS: usize = 12;

// ---------------------------------------------------------------------------
// Words
// ---------------------------------------------------------------------------
pub open spec fn sanitize_char(c: char) -> char {
    if is_alnum(c) {
        lower_char(c)
    } else {
        ' '
    }
}

/// Words completed so far and the word being read (`str::split_whitespace`).
pub open spec fn words_acc(s: Seq<char>) -> (Seq<Seq<char>>, Seq<char>)
    decreases s.len(),
{
    if s.len() == 0 {
        (seq![], seq![])
    } else {
        let (done, cur) = words_acc(s.drop_last());
        if is_ws(s.last()) {
            if cur.len() > 0 {
                (done.push(cur), seq![])
            } else {
                (done, cur)
            }
        } else {
            (done, cur.push(s.last()))
        }
    }
}

/// The maximal runs of non-whitespace characters of `s`.
pub open spec fn split_ws(s: Seq<char>) -> Seq<Seq<char>> {
    let (done, cur) = words_acc(s);
    if cur.len() > 0 {
        done.push(cur)
    } else {
        done
    }
}

/// Lowercased ASCII letters and digits, everything else a separator; the
/// words joined by single spaces.
pub open spec fn sanitize_text_spec(value: Seq<char>) -> Seq<char> {
    join(split_ws(value.map_values(|c: char| sanitize_char(c))), " "@)
}

pub fn split_whitespace_chars(s: &Vec<char>) -> (r: Vec<String>)
    ensures
        sviews(r@) == split_ws(s@),
{
    let mut done: Vec<String> = Vec::new();
    let mut cur: Vec<char> = Vec::new();
    for i in 0..s.len()
        invariant
            (sviews(done@), cur@) == words_acc(s@.take(i as int)),
    {
        assert(s@.take(i + 1).drop_last() == s@.take(i as int));
        let c = s[i];
        if char_is_ws(c) {
            if cur.len() > 0 {
                let w = string_of(&cur);
                done.push(w);
                cur = Vec::new();
                assert(sviews(done@) =~= words_acc(s@.take(i as int)).0.push(
                    words_acc(s@.take(i as int)).1,
                ));
            }
        } else {
            cur.push(c);
        }
    }
    assert(s@.take(s.len() as int) == s@);
    if cur.len() > 0 {
        let w = string_of(&cur);
        done.push(w);
        assert(sviews(done@) =~= words_acc(s@).0.push(words_acc(s@).1));
    }
    done
}

/// Lowercased letters and digits of `value`, words separated by single
/// spaces.
pub fn sanitize_text(value: &str) -> (r: String)
    ensures
        r@ == sanitize_text_spec(value@),
{
    let v = chars_of(value);
    let mut mapped: Vec<char> = Vec::new();
    for i in 0..v.len()
        invariant
            mapped@ == v@.take(i as int).map_values(|c: char| sanitize_char(c)),
    {
        let c = v[i];
        let m = if char_is_alnum(c) {
            char_lower(c)
        } else {
            ' '
        };
        mapped.push(m);
        assert(v@.take(i + 1).map_values(|c: char| sanitize_char(c)) =~= v@.take(
            i as int,
        ).map_values(|c: char| sanitize_char(c)).push(sanitize_char(c)));
    }
    assert(v@.take(v.len() as int) == v@);
    let words = split_whitespace_chars(&mapped);
    join_strings(&words, " ")
}

/// The ASCII letters and digits of `s`, lowercased.
pub open spec fn normalized_token(s: Seq<char>) -> Seq<char>
    decreases s.len(),
{
    if s.len() == 0 {
        s
    } else {
        let kept = normalized_token(s.drop_last());
        if is_alnum(s.last()) {
            kept.push(lower_char(s.last()))
        } else {
            kept
        }
    }
}

pub fn normalize_token_text(value: &str) -> (r: String)
    ensures
        r@ == normalized_token(value@),
{
    let v = chars_of(value);
    let mut kept: Vec<char> = Vec::new();
    for i in 0..v.len()
        invariant
            kept@ == normalized_token(v@.take(i as int)),
    {
        assert(v@.take(i + 1).drop_last() == v@.take(i as int));
        let c = v[i];
        if char_is_alnum(c) {
            kept.push(char_lower(c));
        }
    }
    assert(v@.take(v.len() as int) == v@);
    string_of(&kept)
}

/// Whisper's non-speech output: blank, bracketed or parenthesized
/// annotations, `BLANK` markers, lone dots, and the usual hallucinated
/// sign-offs.
pub open spec fn is_noise_spec(text: Seq<char>) -> bool {
    let t = trim(text);
    ||| t.len() == 0
    ||| t[0] == '['
    ||| t[0] == '('
    ||| contains(t, "BLANK"@)
    ||| t == "."@
    ||| t == "..."@
    ||| contains(t, "Thanks for watching"@)
    ||| contains(t, "Thank you"@)
    ||| contains(t, "Bye."@)
}

fn chars_eq_str(a: &Vec<char>, b: &str) -> (r: bool)
    ensures
        r == (a@ == b@),
{
    let bv = chars_of(b);
    if a.len() != bv.len() {
        return false;
    }
    let mut i: usize = 0;
    while i < a.len()
        invariant
            a.len() == bv.len(),
            bv@ == b@,
            i <= a.len(),
            forall|j: int| 0 <= j < i ==> a@[j] == bv@[j],
        decreases a.len() - i,
    {
        if a[i] != bv[i] {
            return false;
        }
        i = i + 1;
    }
    assert(a@ =~= bv@);
    true
}

/// Whether a recognized text is non-speech output rather than words.
pub fn is_noise_text(text: &str) -> (r: bool)
    ensures
        r == is_noise_spec(text@),
{
    let t = trim_str(text);
    t.len() == 0 || t[0] == '[' || t[0] == '(' || contains_chars(&t, &chars_of("BLANK"))
        || chars_eq_str(&t, ".") || chars_eq_str(&t, "...") || contains_chars(
        &t,
        &chars_of("Thanks for watching"),
    ) || contains_chars(&t, &chars_of("Thank you")) || contains_chars(&t, &chars_of("Bye."))
}

/// No ASCII letter or digit.
pub open spec fn punctuation_only(s: Seq<char>) -> bool {
    forall|i: int| 0 <= i < s.len() ==> !is_alnum(#[trigger] s[i])
}

fn is_punctuation_only(value: &Vec<char>) -> (r: bool)
    ensures
        r == punctuation_only(value@),
{
    for i in 0..value.len()
        invariant
            forall|j: int| 0 <= j < i ==> !is_alnum(#[trigger] value@[j]),
    {
        if char_is_alnum(value[i]) {
            return false;
        }
    }
    true
}

/// Whisper timestamps are in centiseconds; negative ones count as zero.
pub open spec fn centiseconds_to_ms_spec(value: i64) -> int {
    if value <= 0 {
        0
    } else {
        value * 10
    }
}

pub fn centiseconds_to_ms(value: i64) -> (r: u64)
    requires
        value <= u64::MAX / 10,
    ensures
        r == centiseconds_to_ms_spec(value),
{
    if value <= 0 {
        0
    } else {
        value as u64 * 10
    }
}

/// When a recognized word starts: its own start time when the model gave
/// one, else its segment's start, offset by the window's start.
pub open spec fn word_start_spec(chunk_start_ms: u64, t0: i64, segment_start: i64) -> int {
    chunk_start_ms + if t0 >= 0 {
        centiseconds_to_ms_spec(t0)
    } else {
        centiseconds_to_ms_spec(segment_start)
    }
}

/// When a recognized word ends: its own end time, else one tick after its
/// start, else its segment's end, offset by the window's start.
pub open spec fn word_end_spec(chunk_start_ms: u64, t0: i64, t1: i64, segment_end: i64) -> int {
    chunk_start_ms + if t1 >= 0 {
        centiseconds_to_ms_spec(t1)
    } else if t0 >= 0 {
        centiseconds_to_ms_spec((t0 + 1) as i64)
    } else {
        centiseconds_to_ms_spec(segment_end)
    }
}

/// The span of a recognized word in stream milliseconds, given the token's
/// start and end ticks (negative when unknown) and its segment's; a word
/// never ends before it starts.
pub fn token_word_span(chunk_start_ms: u64, t0: i64, t1: i64, segment_start: i64, segment_end: i64) -> (r: (u64, u64))
    requires
        t1 < 0 && t0 >= 0 ==> t0 < i64::MAX,
        word_start_spec(chunk_start_ms, t0, segment_start) <= u64::MAX,
        word_end_spec(chunk_start_ms, t0, t1, segment_end) <= u64::MAX,
    ensures
        r.0 == word_start_spec(chunk_start_ms, t0, segment_start),
        r.1 == if word_end_spec(chunk_start_ms, t0, t1, segment_end) >= r.0 {
            word_end_spec(chunk_start_ms, t0, t1, segment_end)
        } else {
            r.0 as int
        },
{
    let start_ms = if t0 >= 0 {
        chunk_start_ms + centiseconds_to_ms(t0)
    } else {
        chunk_start_ms + centiseconds_to_ms(segment_start)
    };
    let end_ms = if t1 >= 0 {
        chunk_start_ms + centiseconds_to_ms(t1)
    } else if t0 >= 0 {
        chunk_start_ms + centiseconds_to_ms(t0 + 1)
    } else {
        chunk_start_ms + centiseconds_to_ms(segment_end)
    };
    if end_ms >= start_ms {
        (start_ms, end_ms)
    } else {
        (start_ms, start_ms)
    }
}

/// The text of a recognized token as a transcript word: trimmed, or `None`
/// when it is non-speech output.
pub fn recognized_word_text(token_text: &str) -> (r: Option<String>)
    ensures
        r is None <==> is_noise_spec(token_text@),
        r matches Some(w) ==> w@ == trim(token_text@),
{
    let t = trim_str(token_text);
    let w = string_of(&t);
    proof {
        crate::text::lemma_trim_by_idempotent(token_text@, crate::text::TrimPattern::Whitespace);
    }
    if t.len() == 0 || is_noise_text(w.as_str()) {
        None
    } else {
        Some(w)
    }
}

/// A segment's text appended to the raw transcript of a window: trimmed,
/// skipped when blank, separated by one space.
pub open spec fn append_segment_spec(raw: Seq<char>, segment_text: Seq<char>) -> Seq<char> {
    let t = trim(segment_text);
    if t.len() == 0 {
        raw
    } else if raw.len() == 0 {
        t
    } else {
        raw + " "@ + t
    }
}

pub fn append_segment_text(raw: &mut String, segment_text: &str)
    ensures
        final(raw)@ == append_segment_spec(old(raw)@, segment_text@),
{
    let t = trim_str(segment_text);
    if t.len() > 0 {
        if !raw.as_str().is_empty() {
            raw.push(' ');
            proof {
                reveal_strlit(" ");
            }
        }
        push_chars(raw, &t);
    }
}

/// Where the last `keep` of `len` items begin.
pub fn tail_start(len: usize, keep: usize) -> (r: usize)
    ensures
        r == if len <= keep {
            0
        } else {
            len - keep
        },
{
    if len <= keep {
        0
    } else {
        len - keep
    }
}

/// One word appended to the text being built: skipped when blank,
/// punctuation attached directly, other words after a space.
pub open spec fn text_step(text: Seq<char>, word: Seq<char>) -> Seq<char> {
    let part = trim(word);
    if part.len() == 0 {
        text
    } else if text.len() == 0 {
        part
    } else if punctuation_only(part) {
        text + part
    } else if text.last() != ' ' {
        text + " "@ + part
    } else {
        text + part
    }
}

pub open spec fn text_fold(words: Seq<Seq<char>>) -> Seq<char>
    decreases words.len(),
{
    if words.len() == 0 {
        seq![]
    } else {
        text_step(text_fold(words.drop_last()), words.last())
    }
}

/// The words as running text.
pub open spec fn words_to_text_spec(words: Seq<Seq<char>>) -> Seq<char> {
    trim(text_fold(words))
}

/// The words (their texts) as running text.
#[verifier::rlimit(30)]
pub fn words_to_text(words: &Vec<String>) -> (r: String)
    ensures
        r@ == words_to_text_spec(sviews(words@)),
{
    let ghost ws = sviews(words@);
    let mut text: Vec<char> = Vec::new();
    for i in 0..words.len()
        invariant
            ws == sviews(words@),
            text@ == text_fold(ws.take(i as int)),
    {
        assert(ws.take(i + 1).drop_last() == ws.take(i as int));
        let part = trim_str(words[i].as_str());
        if part.len() == 0 {
        } else if text.len() == 0 {
            text = part;
        } else if is_punctuation_only(&part) {
            crate::text::extend_chars(&mut text, &part);
        } else {
            if text[text.len() - 1] != ' ' {
                text.push(' ');
            }
            crate::text::extend_chars(&mut text, &part);
            proof {
                reveal_strlit(" ");
            }
        }
    }
    assert(ws.take(words.len() as int) == ws);
    string_of(&trim_chars(&text))
}

/// The last `CONTEXT_TAIL_WORDS` items of `s` (all of them when fewer).
pub open spec fn tail_of<A>(s: Seq<A>) -> Seq<A> {
    if s.len() > 12 {
        s.subrange(s.len() - 12, s.len() as int)
    } else {
        s
    }
}

/// The non-empty items, in order.
pub open spec fn non_empty(s: Seq<Seq<char>>) -> Seq<Seq<char>>
    decreases s.len(),
{
    if s.len() == 0 {
        s
    } else {
        let kept = non_empty(s.drop_last());
        if s.last().len() > 0 {
            kept.push(s.last())
        } else {
            kept
        }
    }
}

/// The prompt for the next window: the last context words, trimmed, blank
/// ones dropped, joined by spaces.
pub open spec fn prompt_tail_spec(words: Seq<Seq<char>>) -> Seq<char> {
    join(non_empty(tail_of(words).map_values(|w: Seq<char>| trim(w))), " "@)
}

#[verifier::rlimit(30)]
pub fn build_prompt_tail(words: &Vec<String>) -> (r: String)
    ensures
        r@ == prompt_tail_spec(sviews(words@)),
{
    let ghost ws = sviews(words@);
    let n = words.len();
    let start = if n > CONTEXT_TAIL_WORDS {
        n - CONTEXT_TAIL_WORDS
    } else {
        0
    };
    let ghost tail = tail_of(ws).map_values(|w: Seq<char>| trim(w));
    assert(tail_of(ws) == ws.subrange(start as int, n as int));
    let mut kept: Vec<String> = Vec::new();
    let mut i = start;
    while i < n
        invariant
            start <= i <= n,
            n == words@.len(),
            ws == sviews(words@),
            tail == ws.subrange(start as int, n as int).map_values(|w: Seq<char>| trim(w)),
            sviews(kept@) == non_empty(tail.take(i - start)),
        decreases n - i,
    {
        assert(tail.take(i + 1 - start).drop_last() == tail.take(i - start));
        assert(tail[i - start] == trim(ws[i as int]));
        let t = trim_str(words[i].as_str());
        if t.len() > 0 {
            kept.push(string_of(&t));
            assert(sviews(kept@) =~= non_empty(tail.take(i - start)).push(t@));
        }
        i = i + 1;
    }
    assert(tail.take(n - start) == tail);
    join_strings(&kept, " ")
}

/// All the words of the segments, in order.
pub open spec fn flatten(segments: Seq<Seq<Seq<char>>>) -> Seq<Seq<char>>
    decreases segments.len(),
{
    if segments.len() == 0 {
        seq![]
    } else {
        flatten(segments.drop_last()) + segments.last()
    }
}

pub open spec fn segment_views(segments: Seq<Vec<String>>) -> Seq<Seq<Seq<char>>> {
    segments.map_values(|s: Vec<String>| sviews(s@))
}

fn append_strings(all: &mut Vec<String>, items: &Vec<String>)
    ensures
        sviews(final(all)@) == sviews(old(all)@) + sviews(items@),
{
    let ghost before = sviews(all@);
    for j in 0..items.len()
        invariant
            sviews(all@) == before + sviews(items@.take(j as int)),
    {
        let ghost prev = all@;
        let x = items[j].clone();
        all.push(x);
        assert(sviews(items@.take(j + 1)) =~= sviews(items@.take(j as int)).push(items@[j as int]@));
        assert(sviews(all@) =~= sviews(prev).push(x@));
    }
    assert(items@.take(items.len() as int) =~= items@);
}

/// The last context words of a transcript, given the word texts of each
/// segment, as prompt text.
pub fn transcript_tail_text(segment_words: &Vec<Vec<String>>) -> (r: String)
    ensures
        r@ == prompt_tail_spec(flatten(segment_views(segment_words@))),
{
    let ghost segs = segment_views(segment_words@);
    let mut all: Vec<String> = Vec::new();
    for i in 0..segment_words.len()
        invariant
            segs == segment_views(segment_words@),
            sviews(all@) == flatten(segs.take(i as int)),
    {
        assert(segs.take(i + 1).drop_last() == segs.take(i as int));
        append_strings(&mut all, &segment_words[i]);
        assert(segs[i as int] == sviews(segment_words@[i as int]@));
    }
    assert(segs.take(segment_words.len() as int) == segs);
    build_prompt_tail(&all)
}

// ---------------------------------------------------------------------------
// Overlap between windows
// ---------------------------------------------------------------------------
/// The last `k` committed words equal, after normalization, the first `k`
/// candidate words.
pub open spec fn overlaps(candidate: Seq<Seq<char>>, tail: Seq<Seq<char>>, k: int) -> bool {
    &&& 0 <= k <= candidate.len()
    &&& k <= tail.len()
    &&& forall|j: int|
        0 <= j < k ==> normalized_token(#[trigger] tail[tail.len() - k + j]) == normalized_token(
            candidate[j],
        )
}

/// How many leading candidate words repeat the committed tail: the longest
/// overlap of at most `CONTEXT_TAIL_WORDS` words, 0 when there is none.
pub open spec fn overlap_len_spec(candidate: Seq<Seq<char>>, tail: Seq<Seq<char>>, k: int) -> int
    decreases k,
{
    if k <= 0 {
        0
    } else if overlaps(candidate, tail, k) {
        k
    } else {
        overlap_len_spec(candidate, tail, k - 1)
    }
}

pub open spec fn max_overlap(candidate: Seq<Seq<char>>, tail: Seq<Seq<char>>) -> int {
    let m = if candidate.len() < tail.len() {
        candidate.len()
    } else {
        tail.len()
    };
    if m < 12 {
        m as int
    } else {
        12
    }
}

fn overlaps_exec(candidate: &Vec<String>, tail: &Vec<String>, k: usize) -> (r: bool)
    requires
        k <= candidate.len(),
        k <= tail.len(),
    ensures
        r == overlaps(sviews(candidate@), sviews(tail@), k as int),
{
    let ghost c = sviews(candidate@);
    let ghost t = sviews(tail@);
    for j in 0..k
        invariant
            k <= candidate.len(),
            k <= tail.len(),
            c == sviews(candidate@),
            t == sviews(tail@),
            forall|q: int|
                0 <= q < j ==> normalized_token(#[trigger] t[t.len() - k + q]) == normalized_token(
                    c[q],
                ),
    {
        let a = normalize_token_text(tail[tail.len() - k + j].as_str());
        let b = normalize_token_text(candidate[j].as_str());
        if !crate::destinations::str_eq(a.as_str(), b.as_str()) {
            assert(t[t.len() - k + j] == tail@[tail.len() - k + j]@);
            assert(c[j as int] == candidate@[j as int]@);
            return false;
        }
    }
    true
}

/// The number of leading candidate words to drop because the committed
/// tail already holds them.
pub fn overlap_prefix_len(candidate: &Vec<String>, committed_tail: &Vec<String>) -> (r: usize)
    ensures
        r == overlap_len_spec(
            sviews(candidate@),
            sviews(committed_tail@),
            max_overlap(sviews(candidate@), sviews(committed_tail@)),
        ),
        r <= candidate.len(),
{
    if candidate.len() == 0 {
        return 0;
    }
    let mut m = if candidate.len() < committed_tail.len() {
        candidate.len()
    } else {
        committed_tail.len()
    };
    if m > CONTEXT_TAIL_WORDS {
        m = CONTEXT_TAIL_WORDS;
    }
    let mut k = m;
    while k > 0
        invariant
            k <= m,
            m <= candidate.len(),
            m <= committed_tail.len(),
            m == max_overlap(sviews(candidate@), sviews(committed_tail@)),
            overlap_len_spec(sviews(candidate@), sviews(committed_tail@), m as int)
                == overlap_len_spec(sviews(candidate@), sviews(committed_tail@), k as int),
        decreases k,
    {
        if overlaps_exec(candidate, committed_tail, k) {
            return k;
        }
        k = k - 1;
    }
    0
}

/// Longest common subsequence length of two word sequences.
pub open spec fn lcs(a: Seq<Seq<char>>, b: Seq<Seq<char>>) -> nat
    decreases a.len() + b.len(),
{
    if a.len() == 0 || b.len() == 0 {
        0
    } else if a.last() == b.last() {
        lcs(a.drop_last(), b.drop_last()) + 1
    } else {
        let x = lcs(a.drop_last(), b);
        let y = lcs(a, b.drop_last());
        if x >= y {
            x
        } else {
            y
        }
    }
}

proof fn lemma_lcs_bound(a: Seq<Seq<char>>, b: Seq<Seq<char>>)
    ensures
        lcs(a, b) <= a.len(),
    decreases a.len() + b.len(),
{
    if a.len() > 0 && b.len() > 0 {
        if a.last() == b.last() {
            lemma_lcs_bound(a.drop_last(), b.drop_last());
        } else {
            lemma_lcs_bound(a.drop_last(), b);
            lemma_lcs_bound(a, b.drop_last());
        }
    }
}

/// The number of words two hypotheses share in order: the longest common
/// subsequence of the two word lists (callers pass normalized word texts).
#[verifier::rlimit(30)]
pub fn word_lcs_len(left: &Vec<String>, right: &Vec<String>) -> (r: usize)
    ensures
        r == lcs(sviews(left@), sviews(right@)),
{
    let ghost a = sviews(left@);
    let ghost b = sviews(right@);
    let m = right.len();
    let mut prev: Vec<usize> = Vec::new();
    prev.push(0);
    for j in 0..m
        invariant
            prev@.len() == j + 1,
            forall|q: int| 0 <= q <= j ==> #[trigger] prev@[q] == 0,
    {
        prev.push(0);
    }
    assert forall|q: int| 0 <= q <= m implies #[trigger] prev@[q] == lcs(a.take(0), b.take(q)) by {}
    for i in 0..left.len()
        invariant
            m == right.len(),
            a == sviews(left@),
            b == sviews(right@),
            prev@.len() == m + 1,
            forall|q: int| 0 <= q <= m ==> #[trigger] prev@[q] == lcs(a.take(i as int), b.take(q)),
    {
        let mut cur: Vec<usize> = Vec::new();
        cur.push(0);
        assert(cur@[0] == lcs(a.take(i + 1), b.take(0)));
        for j in 0..m
            invariant
                m == right.len(),
                i < left.len(),
                a == sviews(left@),
                b == sviews(right@),
                prev@.len() == m + 1,
                forall|q: int| 0 <= q <= m ==> #[trigger] prev@[q] == lcs(a.take(i as int), b.take(q)),
                cur@.len() == j + 1,
                forall|q: int| 0 <= q <= j ==> #[trigger] cur@[q] == lcs(a.take(i + 1), b.take(q)),
        {
            let ghost ai = a.take(i + 1);
            let ghost bj = b.take(j + 1);
            assert(ai.drop_last() == a.take(i as int));
            assert(bj.drop_last() == b.take(j as int));
            assert(ai.last() == left@[i as int]@);
            assert(bj.last() == right@[j as int]@);
            proof {
                lemma_lcs_bound(a.take(i as int), b.take(j as int));
            }
            let v = if left[i] == right[j] {
                prev[j] + 1
            } else if prev[j + 1] >= cur[j] {
                prev[j + 1]
            } else {
                cur[j]
            };
            cur.push(v);
        }
        prev = cur;
    }
    assert(a.take(left.len() as int) == a);
    assert(b.take(m as int) == b);
    prev[m]
}

// ---------------------------------------------------------------------------
// Windows and timing
// ---------------------------------------------------------------------------
/// The live transcription window length.
pub fn audio_window_ms() -> (r: u64)
    ensures
        r == LIVE_WINDOW_MS,
{
    LIVE_WINDOW_MS
}

/// The merge deadline of the live pipeline.
pub fn merge_deadline_ms() -> (r: u64)
    ensures
        r == LIVE_MERGE_DEADLINE_MS,
{
    LIVE_MERGE_DEADLINE_MS
}

/// Windows of `chunk` samples starting every `hop` samples (at least 1)
/// from `offset`, each cut at `total`; the window that reaches `total` is
/// the last.
pub open spec fn chunk_ranges_from(total: int, chunk: int, hop: int, offset: int) -> Seq<(int, int)>
    decreases (if offset < total {
        total - offset
    } else {
        0
    }),
{
    if offset >= total || hop < 1 {
        seq![]
    } else {
        let end = if offset + chunk < total {
            offset + chunk
        } else {
            total
        };
        if end == total {
            seq![(offset, end)]
        } else {
            seq![(offset, end)] + chunk_ranges_from(total, chunk, hop, offset + hop)
        }
    }
}

pub open spec fn chunk_ranges_spec(total: int, chunk: int, hop: int) -> Seq<(int, int)> {
    chunk_ranges_from(total, chunk, if hop < 1 {
        1
    } else {
        hop
    }, 0)
}

pub open spec fn range_views(v: Seq<(usize, usize)>) -> Seq<(int, int)> {
    v.map_values(|p: (usize, usize)| (p.0 as int, p.1 as int))
}

#[verifier::rlimit(30)]
pub fn chunk_ranges(total_samples: usize, chunk_samples: usize, hop_samples: usize) -> (r: Vec<(usize, usize)>)
    ensures
        range_views(r@) == chunk_ranges_spec(total_samples as int, chunk_samples as int, hop_samples as int),
{
    let hop = if hop_samples < 1 {
        1
    } else {
        hop_samples
    };
    let mut ranges: Vec<(usize, usize)> = Vec::new();
    let mut offset: usize = 0;
    while offset < total_samples
        invariant
            hop >= 1,
            hop == (if hop_samples < 1 {
                1
            } else {
                hop_samples
            }),
            offset <= total_samples,
            range_views(ranges@) + chunk_ranges_from(
                total_samples as int,
                chunk_samples as int,
                hop as int,
                offset as int,
            ) == chunk_ranges_spec(total_samples as int, chunk_samples as int, hop_samples as int),
        decreases total_samples - offset,
    {
        let end = if chunk_samples < total_samples - offset {
            offset + chunk_samples
        } else {
            total_samples
        };
        let ghost before = range_views(ranges@);
        let ghost start = offset as int;
        let ghost f_old = chunk_ranges_from(
            total_samples as int,
            chunk_samples as int,
            hop as int,
            start,
        );
        ranges.push((offset, end));
        assert(range_views(ranges@) =~= before + seq![(start, end as int)]);
        if end == total_samples || hop >= total_samples - offset {
            // the window reaches the end, or the next one would start past it
            offset = total_samples;
        } else {
            offset = offset + hop;
        }
        let ghost f_new = chunk_ranges_from(
            total_samples as int,
            chunk_samples as int,
            hop as int,
            offset as int,
        );
        assert(f_old =~= seq![(start, end as int)] + f_new) by {
            let t = total_samples as int;
            let c = chunk_samples as int;
            let h = hop as int;
            assert(chunk_ranges_from(t, c, h, t) == Seq::<(int, int)>::empty());
            assert(start + h >= t ==> chunk_ranges_from(t, c, h, start + h) == Seq::<(int, int)>::empty());
        }
        assert(range_views(ranges@) + f_new =~= before + f_old);
    }
    ranges
}

/// Samples of a finalization window: eight seconds at 16 kHz.
pub const FINAL_WINDOW_SAMPLES: usize = 128_000;

/// Samples between finalization windows: six seconds at 16 kHz.
pub const FINAL_HOP_SAMPLES: usize = 96_000;

/// Fewest samples a window must hold to be transcribed.
pub const MIN_AUDIO_SAMPLES: usize = 8_000;

/// Fewest 16 kHz samples a live window must hold after resampling.
pub const MIN_LIVE_SAMPLES: usize = 4_000;

/// Whether a window holds enough audio to be transcribed.
pub fn enough_window_samples(sample_count: usize) -> (r: bool)
    ensures
        r == (sample_count >= MIN_AUDIO_SAMPLES),
{
    sample_count >= MIN_AUDIO_SAMPLES
}

/// Whether a resampled live window holds enough audio to be transcribed.
pub fn enough_live_samples(resampled_count: usize) -> (r: bool)
    ensures
        r == (resampled_count >= MIN_LIVE_SAMPLES),
{
    resampled_count >= MIN_LIVE_SAMPLES
}

/// When a finalization window starting at sample `start_sample` (16 kHz)
/// begins, in stream milliseconds.
pub fn window_start_ms(started_at_ms: u64, start_sample: usize) -> (r: u64)
    requires
        start_sample * 1000 <= u64::MAX,
        started_at_ms + start_sample * 1000 / 16_000 <= u64::MAX,
    ensures
        r == started_at_ms + start_sample * 1000 / 16_000,
{
    let scaled: u64 = start_sample as u64 * 1000;
    started_at_ms + scaled / 16_000
}

/// When live window `chunk_id` (counted from one) begins, in stream
/// milliseconds.
pub fn live_chunk_start_ms(started_at_ms: u64, chunk_id: u64) -> (r: u64)
    requires
        chunk_id >= 1,
        started_at_ms + (chunk_id - 1) * LIVE_WINDOW_MS <= u64::MAX,
    ensures
        r == started_at_ms + (chunk_id - 1) * LIVE_WINDOW_MS,
{
    assert((chunk_id - 1) * 2000 <= u64::MAX - started_at_ms);
    started_at_ms + (chunk_id - 1) * LIVE_WINDOW_MS
}

/// The FFmpeg arguments that extract a recording's audio as mono 16 kHz
/// 16-bit PCM.
pub open spec fn extract_audio_args_spec(media: Seq<char>, wav: Seq<char>) -> Seq<Seq<char>> {
    seq![
        "-y"@,
        "-hide_banner"@,
        "-loglevel"@,
        "error"@,
        "-i"@,
        media,
        "-vn"@,
        "-ac"@,
        "1"@,
        "-ar"@,
        "16000"@,
        "-c:a"@,
        "pcm_s16le"@,
        wav,
    ]
}

pub fn extract_audio_args(media_path: &str, wav_path: &str) -> (r: Vec<String>)
    ensures
        sviews(r@) == extract_audio_args_spec(media_path@, wav_path@),
{
    let mut r: Vec<String> = Vec::new();
    r.push(String::from_str("-y"));
    r.push(String::from_str("-hide_banner"));
    r.push(String::from_str("-loglevel"));
    r.push(String::from_str("error"));
    r.push(String::from_str("-i"));
    r.push(media_path.to_string());
    r.push(String::from_str("-vn"));
    r.push(String::from_str("-ac"));
    r.push(String::from_str("1"));
    r.push(String::from_str("-ar"));
    r.push(String::from_str("16000"));
    r.push(String::from_str("-c:a"));
    r.push(String::from_str("pcm_s16le"));
    r.push(wav_path.to_string());
    assert(sviews(r@) =~= extract_audio_args_spec(media_path@, wav_path@));
    r
}

/// A blank preferred input, or `0`, asks for the default input device.
pub open spec fn wants_default_input_spec(preferred: Seq<char>) -> bool {
    trim(preferred).len() == 0 || preferred == "0"@
}

pub fn wants_default_input(preferred_name: &str) -> (r: bool)
    ensures
        r == wants_default_input_spec(preferred_name@),
{
    trim_str(preferred_name).len() == 0 || crate::destinations::str_eq(preferred_name, "0")
}

/// `str::to_lowercase` (full Unicode lowercase mapping), named by its
/// argument.
pub uninterp spec fn unicode_lowercase(s: Seq<char>) -> Seq<char>;

/// `str::to_lowercase`: `s` with every character mapped to its Unicode
/// lowercase form.
#[verifier::external_body]
fn to_lowercase(s: &str) -> (r: String)
    ensures
        r@ == unicode_lowercase(s@),
{
    s.to_lowercase()
}

/// An input device answers to a preferred name when, after lowercasing,
/// the names are equal or one contains the other.
pub open spec fn device_matches_spec(device_name: Seq<char>, preferred: Seq<char>) -> bool {
    let name = unicode_lowercase(device_name);
    let target = unicode_lowercase(preferred);
    name == target || contains(name, target) || contains(target, name)
}

pub fn device_matches(device_name: &str, preferred_name: &str) -> (r: bool)
    ensures
        r == device_matches_spec(device_name@, preferred_name@),
{
    let name = chars_of(to_lowercase(device_name).as_str());
    let target = chars_of(to_lowercase(preferred_name).as_str());
    crate::destinations::chars_equal(&name, &target) || contains_chars(&name, &target)
        || contains_chars(&target, &name)
}

// ---------------------------------------------------------------------------
// Caption files
// ---------------------------------------------------------------------------
/// `HH:MM:SS` then `sep` and milliseconds, each field zero-padded.
pub open spec fn clock(ms: u64, sep: char) -> Seq<char> {
    let total = ms / 1000;
    let millis = ms % 1000;
    let h = total / 3600;
    let m = (total % 3600) / 60;
    let s = total % 60;
    zero_pad(decimal(h as nat), 2) + ":"@ + zero_pad(decimal(m as nat), 2) + ":"@ + zero_pad(
        decimal(s as nat),
        2,
    ) + seq![sep] + zero_pad(decimal(millis as nat), 3)
}

fn push_clock(out: &mut String, ms: u64, sep: char)
    ensures
        final(out)@ == old(out)@ + clock(ms, sep),
{
    let total = ms / 1000;
    let millis = ms % 1000;
    let hours = total / 3600;
    let minutes = (total % 3600) / 60;
    let seconds = total % 60;
    push_chars(out, &padded_decimal_chars(hours, 2));
    out.push_str(":");
    push_chars(out, &padded_decimal_chars(minutes, 2));
    out.push_str(":");
    push_chars(out, &padded_decimal_chars(seconds, 2));
    out.push(sep);
    push_chars(out, &padded_decimal_chars(millis, 3));
}

/// An SRT timestamp, `HH:MM:SS,mmm`.
pub fn format_timestamp_srt(ms: u64) -> (r: String)
    ensures
        r@ == clock(ms, ','),
{
    let mut s = String::new();
    push_clock(&mut s, ms, ',');
    s
}

/// A WebVTT timestamp, `HH:MM:SS.mmm`.
pub fn format_timestamp_vtt(ms: u64) -> (r: String)
    ensures
        r@ == clock(ms, '.'),
{
    let mut s = String::new();
    push_clock(&mut s, ms, '.');
    s
}

pub fn format_segment_range(start_ms: u64, end_ms: u64) -> (r: String)
    ensures
        r@ == clock(start_ms, '.') + " - "@ + clock(end_ms, '.'),
{
    let mut s = String::new();
    push_clock(&mut s, start_ms, '.');
    s.push_str(" - ");
    push_clock(&mut s, end_ms, '.');
    s
}

/// A timed caption: the span of a transcript segment and its text.
#[derive(Clone, Debug, PartialEq)]
pub struct CaptionCue {
    pub start_ms: u64,
    pub end_ms: u64,
    pub text: String,
}

pub open spec fn srt_block(number: nat, cue: CaptionCue) -> Seq<char> {
    decimal(number) + "\n"@ + clock(cue.start_ms, ',') + " --> "@ + clock(cue.end_ms, ',') + "\n"@
        + cue.text@ + "\n\n"@
}

/// Numbered SRT blocks, one per cue, from 1.
pub open spec fn srt_spec(cues: Seq<CaptionCue>) -> Seq<char>
    decreases cues.len(),
{
    if cues.len() == 0 {
        seq![]
    } else {
        srt_spec(cues.drop_last()) + srt_block(cues.len() as nat, cues.last())
    }
}

pub open spec fn vtt_block(cue: CaptionCue) -> Seq<char> {
    clock(cue.start_ms, '.') + " --> "@ + clock(cue.end_ms, '.') + "\n"@ + cue.text@ + "\n\n"@
}

pub open spec fn vtt_blocks(cues: Seq<CaptionCue>) -> Seq<char>
    decreases cues.len(),
{
    if cues.len() == 0 {
        seq![]
    } else {
        vtt_blocks(cues.drop_last()) + vtt_block(cues.last())
    }
}

/// The `WEBVTT` header, then one block per cue.
pub open spec fn vtt_spec(cues: Seq<CaptionCue>) -> Seq<char> {
    "WEBVTT\n\n"@ + vtt_blocks(cues)
}

fn push_srt_block(out: &mut String, number: u64, cue: &CaptionCue)
    ensures
        final(out)@ == old(out)@ + srt_block(number as nat, *cue),
{
    push_decimal(out, number);
    out.push_str("\n");
    push_clock(out, cue.start_ms, ',');
    out.push_str(" --> ");
    push_clock(out, cue.end_ms, ',');
    out.push_str("\n");
    out.push_str(cue.text.as_str());
    out.push_str("\n\n");
    proof {
        reveal_strlit("\n");
        reveal_strlit(" --> ");
        reveal_strlit("\n\n");
    }
    assert(out@ =~= old(out)@ + srt_block(number as nat, *cue));
}

fn push_vtt_block(out: &mut String, cue: &CaptionCue)
    ensures
        final(out)@ == old(out)@ + vtt_block(*cue),
{
    push_clock(out, cue.start_ms, '.');
    out.push_str(" --> ");
    push_clock(out, cue.end_ms, '.');
    out.push_str("\n");
    out.push_str(cue.text.as_str());
    out.push_str("\n\n");
    proof {
        reveal_strlit("\n");
        reveal_strlit(" --> ");
        reveal_strlit("\n\n");
    }
    assert(out@ =~= old(out)@ + vtt_block(*cue));
}

/// SRT captions: numbered blocks of `start --> end` and the text.
pub fn build_srt(cues: &Vec<CaptionCue>) -> (r: String)
    ensures
        r@ == srt_spec(cues@),
{
    let mut output = String::new();
    for i in 0..cues.len()
        invariant
            output@ == srt_spec(cues@.take(i as int)),
    {
        assert(cues@.take(i + 1).drop_last() == cues@.take(i as int));
        push_srt_block(&mut output, (i + 1) as u64, &cues[i]);
    }
    assert(cues@.take(cues.len() as int) == cues@);
    output
}

/// WebVTT captions: the header, then blocks of `start --> end` and the text.
pub fn build_vtt(cues: &Vec<CaptionCue>) -> (r: String)
    ensures
        r@ == vtt_spec(cues@),
{
    let mut output = String::from_str("WEBVTT\n\n");
    for i in 0..cues.len()
        invariant
            output@ == "WEBVTT\n\n"@ + vtt_blocks(cues@.take(i as int)),
    {
        assert(cues@.take(i + 1).drop_last() == cues@.take(i as int));
        let ghost prev = vtt_blocks(cues@.take(i as int));
        push_vtt_block(&mut output, &cues[i]);
        assert("WEBVTT\n\n"@ + vtt_blocks(cues@.take(i + 1)) =~= ("WEBVTT\n\n"@ + prev)
            + vtt_block(cues@[i as int]));
    }
    assert(cues@.take(cues.len() as int) == cues@);
    output
}

/// `Path::with_extension`, named by its arguments.
pub uninterp spec fn with_extension(path: Seq<char>, extension: Seq<char>) -> Seq<char>;

/// No path separator (`/`, nor `\\` where that separates too) occurs in
/// `extension`.
pub open spec fn no_separator(extension: Seq<char>) -> bool {
    forall|i: int| 0 <= i < extension.len() ==> extension[i] != '/' && extension[i] != '\\'
}

/// `Path::with_extension`: `path` with the extension of its file name
/// replaced by (or, without one, extended with) `extension`. std documents a
/// panic when the extension holds a path separator; such extensions are
/// not admitted.
#[verifier::external_body]
pub(crate) fn path_with_extension(path: &str, extension: &str) -> (r: String)
    requires
        no_separator(extension@),
    ensures
        r@ == with_extension(path@, extension@),
{
    std::path::Path::new(path).with_extension(extension).display().to_string()
}

/// The transcript JSON, SRT and WebVTT files next to a recording.
pub fn transcript_artifact_paths(media_path: &str) -> (r: (String, String, String))
    ensures
        r.0@ == with_extension(media_path@, "transcript.json"@),
        r.1@ == with_extension(media_path@, "srt"@),
        r.2@ == with_extension(media_path@, "vtt"@),
{
    proof {
        reveal_strlit("transcript.json");
        reveal_strlit("srt");
        reveal_strlit("vtt");
    }
    (
        path_with_extension(media_path, "transcript.json"),
        path_with_extension(media_path, "srt"),
        path_with_extension(media_path, "vtt"),
    )
}


// ---------------------------------------------------------------------------
// Laws
// ---------------------------------------------------------------------------
/// Normalizing a normalized token changes nothing: normalized tokens are
/// made of lowercase letters and digits only.
pub proof fn law_normalized_token_idempotent(s: Seq<char>)
    ensures
        normalized_token(normalized_token(s)) == normalized_token(s),
        forall|i: int|
            0 <= i < normalized_token(s).len() ==> is_alnum(#[trigger] normalized_token(s)[i])
                && !crate::text::is_upper(normalized_token(s)[i]),
    decreases s.len(),
{
    if s.len() > 0 {
        let prev = normalized_token(s.drop_last());
        law_normalized_token_idempotent(s.drop_last());
        crate::text::lemma_lower_char(s.last());
        if is_alnum(s.last()) {
            let c = lower_char(s.last());
            let cur = prev.push(c);
            assert(cur.drop_last() == prev);
            crate::text::lemma_lower_char(c);
            assert forall|i: int| 0 <= i < cur.len() implies is_alnum(#[trigger] cur[i])
                && !crate::text::is_upper(cur[i]) by {
                if i < prev.len() {
                    assert(cur[i] == prev[i]);
                }
            }
        }
    }
}

proof fn lemma_overlap_len_bounds(c: Seq<Seq<char>>, t: Seq<Seq<char>>, m: int)
    ensures
        0 <= overlap_len_spec(c, t, m),
        m >= 0 ==> overlap_len_spec(c, t, m) <= m,
        overlap_len_spec(c, t, m) > 0 ==> overlaps(c, t, overlap_len_spec(c, t, m)),
        forall|k: int| overlap_len_spec(c, t, m) < k <= m ==> !overlaps(c, t, k),
    decreases m,
{
    if m > 0 && !overlaps(c, t, m) {
        lemma_overlap_len_bounds(c, t, m - 1);
    }
}

/// The words dropped from the start of a new hypothesis are the longest
/// run (of at most twelve words) that repeats the end of the committed
/// tail word for word, after normalization.
pub proof fn law_overlap_is_longest_repeat(candidate: Seq<Seq<char>>, tail: Seq<Seq<char>>)
    ensures
        ({
            let m = max_overlap(candidate, tail);
            let k = overlap_len_spec(candidate, tail, m);
            &&& 0 <= k <= m
            &&& m <= 12 && m <= candidate.len() && m <= tail.len()
            &&& k > 0 ==> overlaps(candidate, tail, k)
            &&& forall|j: int| k < j <= m ==> !overlaps(candidate, tail, j)
        }),
{
    lemma_overlap_len_bounds(candidate, tail, max_overlap(candidate, tail));
}

proof fn lemma_lcs_bound_right(a: Seq<Seq<char>>, b: Seq<Seq<char>>)
    ensures
        lcs(a, b) <= b.len(),
    decreases a.len() + b.len(),
{
    if a.len() > 0 && b.len() > 0 {
        if a.last() == b.last() {
            lemma_lcs_bound_right(a.drop_last(), b.drop_last());
        } else {
            lemma_lcs_bound_right(a.drop_last(), b);
            lemma_lcs_bound_right(a, b.drop_last());
        }
    }
}

/// Two hypotheses share at most as many words as the shorter one has, so
/// their agreement ratio never exceeds one.
pub proof fn law_shared_words_bounded(a: Seq<Seq<char>>, b: Seq<Seq<char>>)
    ensures
        lcs(a, b) <= a.len(),
        lcs(a, b) <= b.len(),
{
    lemma_lcs_bound(a, b);
    lemma_lcs_bound_right(a, b);
}

#[verifier::rlimit(30)]
proof fn lemma_chunk_ranges_from(total: int, chunk: int, hop: int, off: int)
    requires
        0 <= off,
        hop >= 1,
        chunk >= 0,
    ensures
        off >= total <==> chunk_ranges_from(total, chunk, hop, off).len() == 0,
        forall|i: int|
            0 <= i < chunk_ranges_from(total, chunk, hop, off).len() ==> #[trigger] chunk_ranges_from(
                total,
                chunk,
                hop,
                off,
            )[i] == (off + i * hop, if off + i * hop + chunk < total {
                off + i * hop + chunk
            } else {
                total
            }) && off + i * hop < total,
        (chunk_ranges_from(total, chunk, hop, off).len() > 0 && chunk >= hop)
            ==> chunk_ranges_from(total, chunk, hop, off).last().1 == total,
    decreases (if off < total {
        total - off
    } else {
        0
    }),
{
    let r = chunk_ranges_from(total, chunk, hop, off);
    if off < total {
        let end = if off + chunk < total {
            off + chunk
        } else {
            total
        };
        if end == total {
            assert(r =~= seq![(off, end)]);
            assert forall|i: int| 0 <= i < r.len() implies #[trigger] r[i] == (off + i * hop, if off
                + i * hop + chunk < total {
                off + i * hop + chunk
            } else {
                total
            }) && off + i * hop < total by {
                assert(i == 0);
                assert(i * hop == 0);
            }
        } else {
            lemma_chunk_ranges_from(total, chunk, hop, off + hop);
            let rest = chunk_ranges_from(total, chunk, hop, off + hop);
            assert(r =~= seq![(off, end)] + rest);
            assert forall|i: int| 0 <= i < r.len() implies #[trigger] r[i] == (off + i * hop, if off
                + i * hop + chunk < total {
                off + i * hop + chunk
            } else {
                total
            }) && off + i * hop < total by {
                if i > 0 {
                    assert(r[i] == rest[i - 1]);
                    assert(off + hop + (i - 1) * hop == off + i * hop) by (nonlinear_arith);
                } else {
                    assert(i * hop == 0);
                }
            }
            if chunk >= hop && rest.len() == 0 {
                assert(off + hop >= total);
            }
            if rest.len() > 0 {
                assert(r.last() == rest.last());
            }
        }
    }
}

/// The windows over `total` samples: window `i` starts at `i` hops (a hop of
/// at least one sample) and ends `chunk` samples later or at the end; every
/// window starts inside the audio; with windows at least a hop long, the
/// first starts at 0 and the last reaches the end, so together they cover
/// all of it.
pub proof fn law_chunk_windows(total: int, chunk: int, hop: int)
    requires
        chunk >= 0,
    ensures
        ({
            let h = if hop < 1 {
                1
            } else {
                hop
            };
            let r = chunk_ranges_spec(total, chunk, hop);
            &&& (total <= 0 <==> r.len() == 0)
            &&& forall|i: int|
                0 <= i < r.len() ==> #[trigger] r[i] == (i * h, if i * h + chunk < total {
                    i * h + chunk
                } else {
                    total
                }) && i * h < total
            &&& (total > 0 && chunk >= h) ==> r[0].0 == 0 && r.last().1 == total
        }),
{
    let h = if hop < 1 {
        1
    } else {
        hop
    };
    lemma_chunk_ranges_from(total, chunk, h, 0);
    let r = chunk_ranges_spec(total, chunk, hop);
    assert forall|i: int| 0 <= i < r.len() implies #[trigger] r[i] == (i * h, if i * h + chunk
        < total {
        i * h + chunk
    } else {
        total
    }) && i * h < total by {
        assert(0 + i * h == i * h);
    }
    if total > 0 {
        assert(r[0].0 == 0 * h);
    }
}

} // verus!
