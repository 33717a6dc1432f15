//! Decisions of the speech-recognition workers: which results are noise,
//! which tokens are kept, and when enough audio has been buffered.
use vstd::prelude::*;

use crate::text::{chars_of, contains, contains_chars, sviews, trim, trim_str};

verus! {

/// A whole recognition result that is noise or a hallucinated sign-off.
pub open spec fn filtered_result(text: Seq<char>) -> bool {
    ||| text.len() == 0
    ||| contains(text, "[BLANK_AUDIO]"@)
    ||| contains(text, "[BLANK"@)
    ||| text[0] == '['
    ||| text == "."@
    ||| text == "..."@
    ||| contains(text, "("@)
    ||| contains(text, "Thank you"@)
    ||| contains(text, "Thanks for watching"@)
    ||| contains(text, "Bye."@)
}

fn same_chars(a: &Vec<char>, b: &str) -> (r: bool)
    ensures
        r == (a@ == b@),
{
    let bv = chars_of(b);
    if a.len() != bv.len() {
        return false;
    }
    for i in 0..a.len()
        invariant
            a.len() == bv.len(),
            bv@ == b@,
            forall|j: int| 0 <= j < i ==> a@[j] == bv@[j],
    {
        if a[i] != bv[i] {
            return false;
        }
    }
    assert(a@ =~= bv@);
    true
}

/// Whether a recognition result must be dropped as noise.
pub fn should_filter_result(text: &str) -> (r: bool)
    ensures
        r == filtered_result(text@),
{
    let t = chars_of(text);
    t.len() == 0 || contains_chars(&t, &chars_of("[BLANK_AUDIO]")) || contains_chars(
        &t,
        &chars_of("[BLANK"),
    ) || t[0] == '[' || same_chars(&t, ".") || same_chars(&t, "...") || contains_chars(
        &t,
        &chars_of("("),
    ) || contains_chars(&t, &chars_of("Thank you")) || contains_chars(
        &t,
        &chars_of("Thanks for watching"),
    ) || contains_chars(&t, &chars_of("Bye."))
}

/// A token that carries speech: not blank, not a bracketed or parenthesized
/// annotation, no `BLANK` marker.
pub open spec fn kept_token(text: Seq<char>) -> bool {
    let s = trim(text);
    &&& s.len() > 0
    &&& s[0] != '['
    &&& s[0] != '('
    &&& !contains(s, "BLANK"@)
}

/// Whether a token is kept in a recognition result.
pub fn keep_token(text: &str) -> (r: bool)
    ensures
        r == kept_token(text@),
{
    let s = trim_str(text);
    s.len() > 0 && s[0] != '[' && s[0] != '(' && !contains_chars(&s, &chars_of("BLANK"))
}

/// The positions of the kept tokens, in order.
pub open spec fn kept_indices(texts: Seq<Seq<char>>) -> Seq<int>
    decreases texts.len(),
{
    if texts.len() == 0 {
        seq![]
    } else if kept_token(texts.last()) {
        kept_indices(texts.drop_last()).push(texts.len() - 1)
    } else {
        kept_indices(texts.drop_last())
    }
}

pub open spec fn index_views(v: Seq<usize>) -> Seq<int> {
    v.map_values(|i: usize| i as int)
}

/// The positions of the tokens that `keep_token` keeps.
pub fn retained_token_indices(token_texts: &Vec<String>) -> (r: Vec<usize>)
    ensures
        index_views(r@) == kept_indices(sviews(token_texts@)),
{
    let ghost texts = sviews(token_texts@);
    let mut kept: Vec<usize> = Vec::new();
    for i in 0..token_texts.len()
        invariant
            texts == sviews(token_texts@),
            index_views(kept@) == kept_indices(texts.take(i as int)),
    {
        assert(texts.take(i + 1).drop_last() == texts.take(i as int));
        assert(texts.take(i + 1).last() == token_texts@[i as int]@);
        if keep_token(token_texts[i].as_str()) {
            let ghost before = kept@;
            kept.push(i);
            assert(index_views(kept@) =~= index_views(before).push(i as int));
        }
    }
    assert(texts.take(token_texts.len() as int) == texts);
    kept
}

/// What a worker does with a recognition result: drop it (`None`) when its
/// trimmed text is noise or none of its tokens is kept, else forward it with
/// the kept tokens' positions.
pub fn worker_outcome(text: &str, token_texts: &Vec<String>) -> (r: Option<Vec<usize>>)
    ensures
        r is None <==> (filtered_result(trim(text@)) || kept_indices(sviews(token_texts@)).len()
            == 0),
        r matches Some(v) ==> index_views(v@) == kept_indices(sviews(token_texts@)),
{
    let t = crate::text::string_of(&trim_str(text));
    if should_filter_result(t.as_str()) {
        return None;
    }
    let kept = retained_token_indices(token_texts);
    if kept.len() == 0 {
        None
    } else {
        Some(kept)
    }
}

/// Whether a buffered chunk holds at least half a second of audio at
/// `source_rate` samples per second.
pub fn enough_audio(sample_count: usize, source_rate: u32) -> (r: bool)
    ensures
        r == (sample_count >= source_rate / 2),
{
    let half = (source_rate / 2) as usize;
    sample_count >= half
}


/// Token filtering keeps tokens in their order and keeps only tokens that
/// carry speech: the kept positions rise strictly, lie inside the list, and
/// each names a kept token; every kept token is listed.
pub proof fn law_kept_tokens_in_order(texts: Seq<Seq<char>>)
    ensures
        forall|a: int, b: int|
            0 <= a < b < kept_indices(texts).len() ==> kept_indices(texts)[a] < kept_indices(
                texts,
            )[b],
        forall|a: int|
            0 <= a < kept_indices(texts).len() ==> 0 <= #[trigger] kept_indices(texts)[a]
                < texts.len() && kept_token(texts[kept_indices(texts)[a]]),
        forall|j: int|
            0 <= j < texts.len() && kept_token(#[trigger] texts[j]) ==> kept_indices(
                texts,
            ).contains(j),
    decreases texts.len(),
{
    if texts.len() > 0 {
        let prev = texts.drop_last();
        law_kept_tokens_in_order(prev);
        let kp = kept_indices(prev);
        let k = kept_indices(texts);
        assert forall|a: int| 0 <= a < kp.len() implies 0 <= #[trigger] kp[a] < prev.len()
            && texts[kp[a]] == prev[kp[a]] by {}
        if kept_token(texts.last()) {
            assert(k == kp.push(texts.len() - 1));
            assert forall|j: int| 0 <= j < texts.len() && kept_token(#[trigger] texts[j]) implies k.contains(j) by {
                if j < texts.len() - 1 {
                    assert(prev[j] == texts[j]);
                    assert(kp.contains(j));
                    let w = choose|w: int| 0 <= w < kp.len() && kp[w] == j;
                    assert(k[w] == j);
                } else {
                    assert(k[kp.len() as int] == j);
                }
            }
        } else {
            assert forall|j: int| 0 <= j < texts.len() && kept_token(#[trigger] texts[j]) implies k.contains(j) by {
                assert(j < texts.len() - 1);
                assert(prev[j] == texts[j]);
            }
        }
    }
}

} // verus!
