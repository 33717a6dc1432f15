//! Merging the two models' hypotheses for one live window: the caption
//! preview shown at once and the segment committed to the transcript.
//!
//! Each model's hypothesis is first stripped of the words that repeat the
//! committed tail. A model is preferred when it alone still has words; when
//! both do, the more confident one wins (the confidence comparison is made
//! by the caller and handed in as `right_more_confident`).
use vstd::prelude::*;

use crate::text::{decimal, sviews, zero_pad};
use crate::transcript::{
    max_overlap, overlap_len_spec, overlap_prefix_len, words_to_text, words_to_text_spec,
};

verus! {

/// A recognized word with its span in stream milliseconds and the window it
/// came from.
#[derive(Clone, Debug, PartialEq)]
pub struct TimedWord {
    pub text: String,
    pub start_ms: u64,
    pub end_ms: u64,
    pub chunk_id: u64,
}

impl TimedWord {
    /// A field-for-field copy.
    pub fn copy(&self) -> (r: Self)
        ensures
            r == *self,
    {
        TimedWord {
            text: self.text.clone(),
            start_ms: self.start_ms,
            end_ms: self.end_ms,
            chunk_id: self.chunk_id,
        }
    }
}

/// One model's hypothesis for a window: its words, and the span it reports
/// when it has none.
#[derive(Clone, Debug, PartialEq)]
pub struct ModelWords {
    pub words: Vec<TimedWord>,
    pub start_ms: u64,
    pub end_ms: u64,
}

/// Which of the two models a result is taken from.
#[derive(Clone, Copy, Debug, PartialEq, Eq, Structural)]
pub enum ModelSide {
    Left,
    Right,
}

/// The caption preview of a window: the words `first..end` of the chosen
/// model, as text, and the span of the words it was chosen from.
#[derive(Clone, Debug, PartialEq)]
pub struct LivePreview {
    pub side: ModelSide,
    pub first: usize,
    pub end: usize,
    pub text: String,
    pub start_ms: u64,
    pub end_ms: u64,
}

/// The segment committed for a window: the chosen model's words from
/// `first` on, and the other model's remaining words as an alternate.
#[derive(Clone, Debug, PartialEq)]
pub struct FusedSegment {
    pub side: ModelSide,
    pub first: usize,
    pub id: String,
    pub chunk_id: u64,
    pub start_ms: u64,
    pub end_ms: u64,
    pub text: String,
    pub alternate_first: Option<usize>,
    pub alternate_text: Option<String>,
}

pub open spec fn word_texts(ws: Seq<TimedWord>) -> Seq<Seq<char>> {
    ws.map_values(|w: TimedWord| w.text@)
}

/// How many leading words of a hypothesis repeat the committed tail.
pub open spec fn overlap_of(m: ModelWords, tail: Seq<Seq<char>>) -> int {
    let texts = word_texts(m.words@);
    overlap_len_spec(texts, tail, max_overlap(texts, tail))
}

/// The start of the words of `ws` from `lo` on, or `fallback` when none.
pub open spec fn first_start(ws: Seq<TimedWord>, lo: int, fallback: u64) -> u64 {
    if lo < ws.len() {
        ws[lo].start_ms
    } else {
        fallback
    }
}

/// The end of the words of `ws` from `lo` on, or `fallback` when none.
pub open spec fn last_end(ws: Seq<TimedWord>, lo: int, fallback: u64) -> u64 {
    if lo < ws.len() {
        ws.last().end_ms
    } else {
        fallback
    }
}

pub open spec fn pick(side: ModelSide, left: ModelWords, right: ModelWords) -> ModelWords {
    match side {
        ModelSide::Left => left,
        ModelSide::Right => right,
    }
}

pub open spec fn other(side: ModelSide) -> ModelSide {
    match side {
        ModelSide::Left => ModelSide::Right,
        ModelSide::Right => ModelSide::Left,
    }
}

/// Where the last (at most) twelve words of `lo..n` begin.
pub open spec fn preview_first(lo: int, n: int) -> int {
    if n - lo > 12 {
        n - 12
    } else {
        lo
    }
}

/// The model and the first word a preview is drawn from: the model that
/// alone keeps words after the overlap trim, the more confident when both
/// do, and when neither does, the more confident model's whole hypothesis.
pub open spec fn preview_source(
    left: ModelWords,
    right: ModelWords,
    tail: Seq<Seq<char>>,
    right_more_confident: bool,
) -> Option<(ModelSide, int)> {
    let lk = overlap_of(left, tail);
    let rk = overlap_of(right, tail);
    let lt = left.words.len() > lk;
    let rt = right.words.len() > rk;
    if lt && rt {
        if right_more_confident {
            Some((ModelSide::Right, rk))
        } else {
            Some((ModelSide::Left, lk))
        }
    } else if lt {
        Some((ModelSide::Left, lk))
    } else if rt {
        Some((ModelSide::Right, rk))
    } else if left.words.len() > 0 || right.words.len() > 0 {
        if right_more_confident {
            Some((ModelSide::Right, 0))
        } else {
            Some((ModelSide::Left, 0))
        }
    } else {
        None
    }
}

/// The live caption of a window: the last twelve words of the chosen
/// source as text; nothing when that text is empty.
pub open spec fn live_preview_spec(
    left: ModelWords,
    right: ModelWords,
    tail: Seq<Seq<char>>,
    right_more_confident: bool,
) -> Option<(ModelSide, int, int, Seq<char>, u64, u64)> {
    match preview_source(left, right, tail, right_more_confident) {
        None => None,
        Some((side, lo)) => {
            let m = pick(side, left, right);
            let n = m.words.len() as int;
            let first = preview_first(lo, n);
            let text = words_to_text_spec(word_texts(m.words@).subrange(first, n));
            if text.len() == 0 {
                None
            } else {
                Some(
                    (
                        side,
                        first,
                        n,
                        text,
                        first_start(m.words@, lo, m.start_ms),
                        last_end(m.words@, lo, m.end_ms),
                    ),
                )
            }
        },
    }
}

/// The model a committed segment is taken from: the one that alone keeps
/// words after the overlap trim, the more confident when both do; none when
/// neither does.
pub open spec fn fuse_source(
    left: ModelWords,
    right: ModelWords,
    tail: Seq<Seq<char>>,
    right_more_confident: bool,
) -> Option<ModelSide> {
    let lt = left.words.len() > overlap_of(left, tail);
    let rt = right.words.len() > overlap_of(right, tail);
    if !lt && !rt {
        None
    } else if !lt {
        Some(ModelSide::Right)
    } else if !rt {
        Some(ModelSide::Left)
    } else if right_more_confident {
        Some(ModelSide::Right)
    } else {
        Some(ModelSide::Left)
    }
}

/// `chunk-` and the window number, zero-padded to six digits.
pub open spec fn segment_id(chunk_id: u64) -> Seq<char> {
    "chunk-"@ + zero_pad(decimal(chunk_id as nat), 6)
}

pub open spec fn words_text_from(ws: Seq<TimedWord>, lo: int) -> Seq<char> {
    words_to_text_spec(word_texts(ws).subrange(lo, ws.len() as int))
}

fn texts_of(ws: &Vec<TimedWord>) -> (r: Vec<String>)
    ensures
        sviews(r@) == word_texts(ws@),
{
    let mut r: Vec<String> = Vec::new();
    for i in 0..ws.len()
        invariant
            sviews(r@) == word_texts(ws@).take(i as int),
    {
        let ghost before = r@;
        r.push(ws[i].text.clone());
        assert(sviews(r@) =~= sviews(before).push(ws@[i as int].text@));
        assert(word_texts(ws@).take(i + 1) =~= word_texts(ws@).take(i as int).push(
            ws@[i as int].text@,
        ));
    }
    assert(word_texts(ws@).take(ws.len() as int) =~= word_texts(ws@));
    r
}

fn range_text(ws: &Vec<TimedWord>, lo: usize, hi: usize) -> (r: String)
    requires
        lo <= hi <= ws.len(),
    ensures
        r@ == words_to_text_spec(word_texts(ws@).subrange(lo as int, hi as int)),
{
    let mut texts: Vec<String> = Vec::new();
    let mut i = lo;
    while i < hi
        invariant
            lo <= i <= hi <= ws.len(),
            sviews(texts@) == word_texts(ws@).subrange(lo as int, i as int),
        decreases hi - i,
    {
        let ghost before = texts@;
        texts.push(ws[i].text.clone());
        assert(sviews(texts@) =~= sviews(before).push(ws@[i as int].text@));
        assert(word_texts(ws@).subrange(lo as int, i + 1) =~= word_texts(ws@).subrange(
            lo as int,
            i as int,
        ).push(ws@[i as int].text@));
        i = i + 1;
    }
    words_to_text(&texts)
}

fn overlap_count(m: &ModelWords, tail: &Vec<String>) -> (r: usize)
    ensures
        r == overlap_of(*m, sviews(tail@)),
        r <= m.words.len(),
{
    let texts = texts_of(&m.words);
    overlap_prefix_len(&texts, tail)
}

fn span_of(m: &ModelWords, lo: usize) -> (r: (u64, u64))
    ensures
        r.0 == first_start(m.words@, lo as int, m.start_ms),
        r.1 == last_end(m.words@, lo as int, m.end_ms),
{
    if lo < m.words.len() {
        (m.words[lo].start_ms, m.words[m.words.len() - 1].end_ms)
    } else {
        (m.start_ms, m.end_ms)
    }
}

/// The live caption preview of a window, given both models' hypotheses, the
/// committed tail's word texts, and whether the right model reported the
/// higher confidence.
#[verifier::rlimit(30)]
pub fn build_live_update(
    left: &ModelWords,
    right: &ModelWords,
    committed_tail: &Vec<String>,
    right_more_confident: bool,
) -> (r: Option<LivePreview>)
    ensures
        match live_preview_spec(*left, *right, sviews(committed_tail@), right_more_confident) {
            None => r is None,
            Some((side, first, end, text, start_ms, end_ms)) => r matches Some(p) && p.side
                == side && p.first == first && p.end == end && p.text@ == text && p.start_ms
                == start_ms && p.end_ms == end_ms,
        },
{
    let lk = overlap_count(left, committed_tail);
    let rk = overlap_count(right, committed_tail);
    let lt = left.words.len() > lk;
    let rt = right.words.len() > rk;
    let (side, lo) = if lt && rt {
        if right_more_confident {
            (ModelSide::Right, rk)
        } else {
            (ModelSide::Left, lk)
        }
    } else if lt {
        (ModelSide::Left, lk)
    } else if rt {
        (ModelSide::Right, rk)
    } else if left.words.len() > 0 || right.words.len() > 0 {
        if right_more_confident {
            (ModelSide::Right, 0)
        } else {
            (ModelSide::Left, 0)
        }
    } else {
        return None;
    };
    let m = match side {
        ModelSide::Left => left,
        ModelSide::Right => right,
    };
    let n = m.words.len();
    let first = if n - lo > 12 {
        n - 12
    } else {
        lo
    };
    let text = range_text(&m.words, first, n);
    if text.as_str().is_empty() {
        return None;
    }
    let (start_ms, end_ms) = span_of(m, lo);
    Some(LivePreview { side, first, end: n, text, start_ms, end_ms })
}

/// The segment committed for a window, or `None` when both hypotheses only
/// repeat the committed tail.
#[verifier::rlimit(30)]
pub fn fuse_model_spans(
    left: &ModelWords,
    right: &ModelWords,
    committed_tail: &Vec<String>,
    right_more_confident: bool,
) -> (r: Option<FusedSegment>)
    ensures
        match fuse_source(*left, *right, sviews(committed_tail@), right_more_confident) {
            None => r is None,
            Some(side) => r matches Some(s) && {
                let m = pick(side, *left, *right);
                let k = overlap_of(m, sviews(committed_tail@));
                let o = pick(other(side), *left, *right);
                let ok = overlap_of(o, sviews(committed_tail@));
                &&& s.side == side
                &&& s.first == k
                &&& s.text@ == words_text_from(m.words@, k)
                &&& s.start_ms == m.words@[k].start_ms
                &&& s.end_ms == m.words@.last().end_ms
                &&& s.chunk_id == m.words@[k].chunk_id
                &&& s.id@ == segment_id(m.words@[k].chunk_id)
                &&& (if o.words.len() > ok {
                    &&& s.alternate_first == Some(ok as usize)
                    &&& s.alternate_text matches Some(t) && t@ == words_text_from(o.words@, ok)
                } else {
                    &&& s.alternate_first is None
                    &&& s.alternate_text is None
                })
            },
        },
{
    let lk = overlap_count(left, committed_tail);
    let rk = overlap_count(right, committed_tail);
    let lt = left.words.len() > lk;
    let rt = right.words.len() > rk;
    if !lt && !rt {
        return None;
    }
    let side = if !lt {
        ModelSide::Right
    } else if !rt {
        ModelSide::Left
    } else if right_more_confident {
        ModelSide::Right
    } else {
        ModelSide::Left
    };
    let (m, k, o, ok) = match side {
        ModelSide::Left => (left, lk, right, rk),
        ModelSide::Right => (right, rk, left, lk),
    };
    let n = m.words.len();
    let text = range_text(&m.words, k, n);
    let first_word = &m.words[k];
    let mut id = String::from_str("chunk-");
    crate::text::push_chars(&mut id, &crate::text::padded_decimal_chars(first_word.chunk_id, 6));
    proof {
        reveal_strlit("chunk-");
    }
    let (alternate_first, alternate_text) = if o.words.len() > ok {
        (Some(ok), Some(range_text(&o.words, ok, o.words.len())))
    } else {
        (None, None)
    };
    Some(
        FusedSegment {
            side,
            first: k,
            id,
            chunk_id: first_word.chunk_id,
            start_ms: first_word.start_ms,
            end_ms: m.words[n - 1].end_ms,
            text,
            alternate_first,
            alternate_text,
        },
    )
}


/// When both models still have words after their overlap with the
/// committed tail, the committed segment comes from the more confident
/// model: the right one exactly when it is the more confident, and the
/// other model's words become the alternate reading.
pub proof fn law_confident_model_is_committed(left: ModelWords, right: ModelWords, tail: Seq<Seq<char>>)
    requires
        left.words.len() > overlap_of(left, tail),
        right.words.len() > overlap_of(right, tail),
    ensures
        fuse_source(left, right, tail, true) == Some(ModelSide::Right),
        fuse_source(left, right, tail, false) == Some(ModelSide::Left),
        pick(other(ModelSide::Right), left, right) == left,
        pick(other(ModelSide::Left), left, right) == right,
{
}

/// A live caption shows at most the last twelve words of the chosen model's
/// hypothesis, never nothing, and never the words that repeat the committed
/// tail when the chosen model has others.
pub proof fn law_live_preview_shape(
    left: ModelWords,
    right: ModelWords,
    tail: Seq<Seq<char>>,
    right_more_confident: bool,
)
    ensures
        live_preview_spec(left, right, tail, right_more_confident) matches Some(
            (side, first, end, text, _s, _e),
        ) ==> {
            let m = pick(side, left, right);
            &&& end == m.words.len()
            &&& 0 <= first <= end
            &&& end - first <= 12
            &&& text.len() > 0
            &&& m.words.len() > overlap_of(m, tail) ==> first >= overlap_of(m, tail)
        },
{
    crate::transcript::law_overlap_is_longest_repeat(word_texts(left.words@), tail);
    crate::transcript::law_overlap_is_longest_repeat(word_texts(right.words@), tail);
}

/// A window commits a segment exactly when one of the models still has
/// words after the overlap trim, and the segment comes from such a model.
pub proof fn law_fused_segment_has_new_words(
    left: ModelWords,
    right: ModelWords,
    tail: Seq<Seq<char>>,
    right_more_confident: bool,
)
    ensures
        fuse_source(left, right, tail, right_more_confident) is Some <==> (left.words.len()
            > overlap_of(left, tail) || right.words.len() > overlap_of(right, tail)),
        fuse_source(left, right, tail, right_more_confident) matches Some(side) ==> pick(
            side,
            left,
            right,
        ).words.len() > overlap_of(pick(side, left, right), tail),
{
}


// ---------------------------------------------------------------------------
// The committed tail across windows
// ---------------------------------------------------------------------------
/// The last twelve items of `s` (all of them when fewer).
pub open spec fn last_twelve<A>(s: Seq<A>) -> Seq<A> {
    if s.len() > 12 {
        s.subrange(s.len() - 12, s.len() as int)
    } else {
        s
    }
}

/// Where a transcription stands between windows: the number of the last
/// window begun and the last committed words (at most twelve), which the
/// next window's overlap trim and prompt are drawn from.
#[derive(Clone, Debug, PartialEq)]
pub struct TranscriptCursor {
    pub chunk_id: u64,
    pub tail: Vec<TimedWord>,
}

impl TranscriptCursor {
    /// A cursor before the first window.
    pub fn new() -> (r: Self)
        ensures
            r.chunk_id == 0,
            r.tail@.len() == 0,
    {
        TranscriptCursor { chunk_id: 0, tail: Vec::new() }
    }

    /// The committed tail's word texts.
    pub fn tail_texts(&self) -> (r: Vec<String>)
        ensures
            sviews(r@) == word_texts(self.tail@),
    {
        texts_of(&self.tail)
    }

    /// The prompt for the next window: the committed tail as text.
    pub fn prompt(&self) -> (r: String)
        ensures
            r@ == crate::transcript::prompt_tail_spec(word_texts(self.tail@)),
    {
        crate::transcript::build_prompt_tail(&self.tail_texts())
    }

    /// Begins the next live window when the resampled audio is long enough:
    /// its number and its start in stream milliseconds.
    pub fn begin_live_window(&mut self, started_at_ms: u64, resampled_samples: usize) -> (r: Option<
        (u64, u64),
    >)
        requires
            resampled_samples >= crate::transcript::MIN_LIVE_SAMPLES ==> old(self).chunk_id < u64::MAX
                && started_at_ms + old(self).chunk_id * crate::transcript::LIVE_WINDOW_MS <= u64::MAX,
        ensures
            resampled_samples < crate::transcript::MIN_LIVE_SAMPLES ==> r is None && *final(self)
                == *old(self),
            resampled_samples >= crate::transcript::MIN_LIVE_SAMPLES ==> r == Some(
                (
                    (old(self).chunk_id + 1) as u64,
                    (started_at_ms + old(self).chunk_id * crate::transcript::LIVE_WINDOW_MS) as u64,
                ),
            ) && final(self).chunk_id == old(self).chunk_id + 1 && final(self).tail == old(
                self,
            ).tail,
    {
        if !crate::transcript::enough_live_samples(resampled_samples) {
            return None;
        }
        self.chunk_id = self.chunk_id + 1;
        let start = crate::transcript::live_chunk_start_ms(started_at_ms, self.chunk_id);
        Some((self.chunk_id, start))
    }

    /// Commits a window: the segment `fuse_model_spans` makes of the two
    /// hypotheses against the committed tail; its words then join the tail,
    /// of which the last twelve are kept.
    #[verifier::rlimit(30)]
    pub fn commit_window(&mut self, left: &ModelWords, right: &ModelWords, right_more_confident: bool) -> (r:
        Option<FusedSegment>)
        ensures
            match fuse_source(*left, *right, word_texts(old(self).tail@), right_more_confident) {
                None => r is None && *final(self) == *old(self),
                Some(side) => r matches Some(s) && {
                    let m = pick(side, *left, *right);
                    let k = overlap_of(m, word_texts(old(self).tail@));
                    let o = pick(other(side), *left, *right);
                    let ok = overlap_of(o, word_texts(old(self).tail@));
                    &&& s.side == side
                    &&& s.first == k
                    &&& s.text@ == words_text_from(m.words@, k)
                    &&& s.start_ms == m.words@[k].start_ms
                    &&& s.end_ms == m.words@.last().end_ms
                    &&& s.chunk_id == m.words@[k].chunk_id
                    &&& s.id@ == segment_id(m.words@[k].chunk_id)
                    &&& (if o.words.len() > ok {
                        &&& s.alternate_first == Some(ok as usize)
                        &&& s.alternate_text matches Some(t) && t@ == words_text_from(o.words@, ok)
                    } else {
                        &&& s.alternate_first is None
                        &&& s.alternate_text is None
                    })
                    &&& final(self).chunk_id == old(self).chunk_id
                    &&& final(self).tail@ == last_twelve(old(self).tail@ + m.words@.skip(k))
                },
            },
            final(self).tail@.len() <= 12 || final(self).tail@ == old(self).tail@,
    {
        let tail = self.tail_texts();
        let fused = fuse_model_spans(left, right, &tail, right_more_confident);
        match fused {
            None => None,
            Some(seg) => {
                let m = match seg.side {
                    ModelSide::Left => left,
                    ModelSide::Right => right,
                };
                let ghost before = self.tail@;
                let mut joined: Vec<TimedWord> = Vec::new();
                for i in 0..self.tail.len()
                    invariant
                        joined@ == before.take(i as int),
                        self.tail@ == before,
                {
                    joined.push(self.tail[i].copy());
                    assert(joined@ =~= before.take(i + 1));
                }
                let mut j = seg.first;
                while j < m.words.len()
                    invariant
                        seg.first <= j <= m.words.len(),
                        joined@ == before + m.words@.subrange(seg.first as int, j as int),
                    decreases m.words.len() - j,
                {
                    joined.push(m.words[j].copy());
                    assert(joined@ =~= before + m.words@.subrange(seg.first as int, j + 1));
                    j = j + 1;
                }
                assert(m.words@.subrange(seg.first as int, m.words.len() as int) =~= m.words@.skip(
                    seg.first as int,
                ));
                let n = joined.len();
                let start = crate::transcript::tail_start(n, crate::transcript::CONTEXT_TAIL_WORDS);
                let mut kept: Vec<TimedWord> = Vec::new();
                let mut q = start;
                while q < n
                    invariant
                        start <= q <= n,
                        n == joined.len(),
                        kept@ == joined@.subrange(start as int, q as int),
                    decreases n - q,
                {
                    kept.push(joined[q].copy());
                    assert(kept@ =~= joined@.subrange(start as int, q + 1));
                    q = q + 1;
                }
                assert(kept@ =~= last_twelve(joined@));
                self.tail = kept;
                Some(seg)
            },
        }
    }
}

} // verus!
