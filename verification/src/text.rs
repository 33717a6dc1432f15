//! Character-level text model shared by the formatting and parsing code.
//!
//! Strings are modelled by their `Seq<char>` views. Every operation the
//! library performs on text (trimming, ASCII case folding, substring search,
//! decimal formatting and parsing) is specified here once.
use vstd::prelude::*;

verus! {

/// `String::push` appends one character.
pub assume_specification[ String::push ](s: &mut String, ch: char)
    ensures
        final(s)@ == old(s)@.push(ch),
;

/// `String::push_str` appends a string slice.
pub assume_specification[ String::push_str ](s: &mut String, string: &str)
    ensures
        final(s)@ == old(s)@ + string@,
;

// ---------------------------------------------------------------------------
// Characters
// ---------------------------------------------------------------------------
/// Unicode `White_Space`, the property that `char::is_whitespace` tests.
pub open spec fn is_ws(c: char) -> bool {
    ||| ('\u{9}' <= c && c <= '\u{d}')
    ||| c == ' '
    ||| c == '\u{85}'
    ||| c == '\u{a0}'
    ||| c == '\u{1680}'
    ||| ('\u{2000}' <= c && c <= '\u{200a}')
    ||| c == '\u{2028}'
    ||| c == '\u{2029}'
    ||| c == '\u{202f}'
    ||| c == '\u{205f}'
    ||| c == '\u{3000}'
}

pub open spec fn is_digit(c: char) -> bool {
    '0' <= c && c <= '9'
}

pub open spec fn is_upper(c: char) -> bool {
    'A' <= c && c <= 'Z'
}

pub open spec fn is_lower(c: char) -> bool {
    'a' <= c && c <= 'z'
}

/// `char::is_ascii_alphanumeric`.
pub open spec fn is_alnum(c: char) -> bool {
    is_digit(c) || is_upper(c) || is_lower(c)
}

/// `char::to_ascii_lowercase`.
pub open spec fn lower_char(c: char) -> char {
    if is_upper(c) {
        ((c as u32) + 32) as char
    } else {
        c
    }
}

/// ASCII lowercase of every character of `s` (`str::to_ascii_lowercase`).
pub open spec fn lower(s: Seq<char>) -> Seq<char> {
    s.map_values(|c: char| lower_char(c))
}

pub fn char_is_ws(c: char) -> (r: bool)
    ensures
        r == is_ws(c),
{
    ('\u{9}' <= c && c <= '\u{d}') || c == ' ' || c == '\u{85}' || c == '\u{a0}' || c
        == '\u{1680}' || ('\u{2000}' <= c && c <= '\u{200a}') || c == '\u{2028}' || c
        == '\u{2029}' || c == '\u{202f}' || c == '\u{205f}' || c == '\u{3000}'
}

pub fn char_is_alnum(c: char) -> (r: bool)
    ensures
        r == is_alnum(c),
{
    ('0' <= c && c <= '9') || ('A' <= c && c <= 'Z') || ('a' <= c && c <= 'z')
}

pub fn char_lower(c: char) -> (r: char)
    ensures
        r == lower_char(c),
{
    if 'A' <= c && c <= 'Z' {
        let b: u8 = c as u8;
        let r = (b + 32) as char;
        assert(r as u32 == c as u32 + 32);
        r
    } else {
        c
    }
}

/// Lowercasing never produces an uppercase letter and keeps the ASCII
/// alphanumeric class.
pub proof fn lemma_lower_char(c: char)
    ensures
        !is_upper(lower_char(c)),
        is_alnum(lower_char(c)) == is_alnum(c),
        lower_char(lower_char(c)) == lower_char(c),
        !is_upper(c) ==> lower_char(c) == c,
        is_ws(lower_char(c)) == is_ws(c),
{
}

// ---------------------------------------------------------------------------
// Conversions between `str`/`String` and `Vec<char>`
// ---------------------------------------------------------------------------
pub fn chars_of(s: &str) -> (v: Vec<char>)
    ensures
        v@ == s@,
{
    let mut v: Vec<char> = Vec::new();
    for c in it: s.chars()
        invariant
            v@ == it.seq().take(it.index() as int),
            it.seq() == s@,
    {
        v.push(c);
    }
    v
}

pub fn string_of(v: &Vec<char>) -> (s: String)
    ensures
        s@ == v@,
{
    let mut s = String::new();
    push_chars(&mut s, v);
    s
}

/// Appends the characters of `v` to `s`.
pub fn push_chars(s: &mut String, v: &Vec<char>)
    ensures
        final(s)@ == old(s)@ + v@,
{
    let ghost start = s@;
    for i in 0..v.len()
        invariant
            s@ == start + v@.take(i as int),
    {
        s.push(v[i]);
        assert(v@.take(i as int).push(v@[i as int]) == v@.take(i + 1));
    }
    assert(v@.take(v.len() as int) == v@);
}

/// Appends the characters of `v` to `dst`.
pub fn extend_chars(dst: &mut Vec<char>, v: &Vec<char>)
    ensures
        final(dst)@ == old(dst)@ + v@,
{
    let ghost start = dst@;
    for i in 0..v.len()
        invariant
            dst@ == start + v@.take(i as int),
    {
        dst.push(v[i]);
        assert(v@.take(i as int).push(v@[i as int]) == v@.take(i + 1));
    }
    assert(v@.take(v.len() as int) == v@);
}

pub fn copy_chars(v: &Vec<char>, from: usize, to: usize) -> (r: Vec<char>)
    requires
        from <= to <= v.len(),
    ensures
        r@ == v@.subrange(from as int, to as int),
{
    let mut r: Vec<char> = Vec::new();
    let mut i = from;
    while i < to
        invariant
            from <= i <= to <= v.len(),
            r@ == v@.subrange(from as int, i as int),
        decreases to - i,
    {
        r.push(v[i]);
        assert(v@.subrange(from as int, i as int).push(v@[i as int]) == v@.subrange(
            from as int,
            i + 1,
        ));
        i = i + 1;
    }
    r
}

pub fn lower_chars(v: &Vec<char>) -> (r: Vec<char>)
    ensures
        r@ == lower(v@),
{
    let mut r: Vec<char> = Vec::new();
    for i in 0..v.len()
        invariant
            r@ == lower(v@.take(i as int)),
    {
        r.push(char_lower(v[i]));
        assert(lower(v@.take(i as int)).push(lower_char(v@[i as int])) == lower(
            v@.take(i + 1),
        ));
    }
    assert(v@.take(v.len() as int) == v@);
    r
}

/// Whether some character of `s` is whitespace.
pub open spec fn has_ws(s: Seq<char>) -> bool {
    exists|i: int| 0 <= i < s.len() && is_ws(#[trigger] s[i])
}

pub fn any_ws(v: &Vec<char>) -> (r: bool)
    ensures
        r == has_ws(v@),
{
    for i in 0..v.len()
        invariant
            forall|j: int| 0 <= j < i ==> !is_ws(#[trigger] v@[j]),
    {
        if char_is_ws(v[i]) {
            return true;
        }
    }
    false
}

// ---------------------------------------------------------------------------
// Trimming
// ---------------------------------------------------------------------------
/// What a trim removes: whitespace (`str::trim`) or one given character
/// (`str::trim_matches(c)`).
#[derive(Clone, Copy)]
pub enum TrimPattern {
    Whitespace,
    Char(char),
}

pub open spec fn trim_hit(p: TrimPattern, c: char) -> bool {
    match p {
        TrimPattern::Whitespace => is_ws(c),
        TrimPattern::Char(x) => c == x,
    }
}

/// Index of the first character at or after `i` that the pattern keeps.
pub open spec fn lead_end(s: Seq<char>, p: TrimPattern, i: int) -> int
    decreases s.len() - i,
{
    if 0 <= i < s.len() && trim_hit(p, s[i]) {
        lead_end(s, p, i + 1)
    } else {
        i
    }
}

/// One past the index of the last character before `j` that the pattern keeps.
pub open spec fn trail_start(s: Seq<char>, p: TrimPattern, j: int) -> int
    decreases j,
{
    if 0 < j <= s.len() && trim_hit(p, s[j - 1]) {
        trail_start(s, p, j - 1)
    } else {
        j
    }
}

pub open spec fn trim_start_by(s: Seq<char>, p: TrimPattern) -> Seq<char> {
    s.subrange(lead_end(s, p, 0), s.len() as int)
}

pub open spec fn trim_end_by(s: Seq<char>, p: TrimPattern) -> Seq<char> {
    s.subrange(0, trail_start(s, p, s.len() as int))
}

pub open spec fn trim_by(s: Seq<char>, p: TrimPattern) -> Seq<char> {
    trim_end_by(trim_start_by(s, p), p)
}

/// `str::trim`.
pub open spec fn trim(s: Seq<char>) -> Seq<char> {
    trim_by(s, TrimPattern::Whitespace)
}

proof fn lemma_lead_end_bounds(s: Seq<char>, p: TrimPattern, i: int)
    requires
        0 <= i <= s.len(),
    ensures
        i <= lead_end(s, p, i) <= s.len(),
        forall|k: int| i <= k < lead_end(s, p, i) ==> trim_hit(p, #[trigger] s[k]),
        lead_end(s, p, i) < s.len() ==> !trim_hit(p, s[lead_end(s, p, i)]),
    decreases s.len() - i,
{
    if i < s.len() && trim_hit(p, s[i]) {
        lemma_lead_end_bounds(s, p, i + 1);
    }
}

proof fn lemma_trail_start_bounds(s: Seq<char>, p: TrimPattern, j: int)
    requires
        0 <= j <= s.len(),
    ensures
        0 <= trail_start(s, p, j) <= j,
        forall|k: int| trail_start(s, p, j) <= k < j ==> trim_hit(p, #[trigger] s[k]),
        trail_start(s, p, j) > 0 ==> !trim_hit(p, s[trail_start(s, p, j) - 1]),
    decreases j,
{
    if 0 < j && trim_hit(p, s[j - 1]) {
        lemma_trail_start_bounds(s, p, j - 1);
    }
}

/// The trimmed text starts and ends with characters the pattern keeps.
pub proof fn lemma_trim_by_shape(s: Seq<char>, p: TrimPattern)
    ensures
        trim_by(s, p).len() > 0 ==> !trim_hit(p, trim_by(s, p)[0]),
        trim_by(s, p).len() > 0 ==> !trim_hit(p, trim_by(s, p).last()),
        trim_by(s, p).len() <= s.len(),
        forall|c: char| trim_by(s, p).contains(c) ==> s.contains(c),
{
    let a = lead_end(s, p, 0);
    lemma_lead_end_bounds(s, p, 0);
    let t = trim_start_by(s, p);
    let b = trail_start(t, p, t.len() as int);
    lemma_trail_start_bounds(t, p, t.len() as int);
    let r = trim_by(s, p);
    assert(r == t.subrange(0, b));
    if r.len() > 0 {
        assert(r[0] == t[0]);
        assert(t[0] == s[a]);
        assert(r.last() == t[b - 1]);
    }
    assert forall|c: char| r.contains(c) implies s.contains(c) by {
        let k = choose|k: int| 0 <= k < r.len() && r[k] == c;
        assert(s[a + k] == c);
    }
}

/// Trimming text that neither starts nor ends with a trimmed character
/// leaves it unchanged.
pub proof fn lemma_trim_by_noop(s: Seq<char>, p: TrimPattern)
    requires
        s.len() > 0 ==> !trim_hit(p, s[0]) && !trim_hit(p, s.last()),
    ensures
        trim_by(s, p) == s,
{
    assert(lead_end(s, p, 0) == 0);
    assert(s.subrange(0, s.len() as int) == s);
    assert(trail_start(s, p, s.len() as int) == s.len());
}

/// Trimming twice is trimming once.
pub proof fn lemma_trim_by_idempotent(s: Seq<char>, p: TrimPattern)
    ensures
        trim_by(trim_by(s, p), p) == trim_by(s, p),
{
    lemma_trim_by_shape(s, p);
    lemma_trim_by_noop(trim_by(s, p), p);
}

/// A trimmed text without whitespace at its ends is its own trim.
pub proof fn lemma_trim_noop_ws(s: Seq<char>)
    requires
        s.len() > 0 ==> !is_ws(s[0]) && !is_ws(s.last()),
    ensures
        trim(s) == s,
{
    lemma_trim_by_noop(s, TrimPattern::Whitespace);
}

pub fn trim_chars_by(v: &Vec<char>, p: TrimPattern) -> (r: Vec<char>)
    ensures
        r@ == trim_by(v@, p),
{
    let mut a: usize = 0;
    while a < v.len() && trim_char_hit(p, v[a])
        invariant
            0 <= a <= v.len(),
            lead_end(v@, p, 0) == lead_end(v@, p, a as int),
        decreases v.len() - a,
    {
        a = a + 1;
    }
    let t = copy_chars(v, a, v.len());
    let mut b: usize = t.len();
    while b > 0 && trim_char_hit(p, t[b - 1])
        invariant
            0 <= b <= t.len(),
            trail_start(t@, p, t@.len() as int) == trail_start(t@, p, b as int),
        decreases b,
    {
        b = b - 1;
    }
    copy_chars(&t, 0, b)
}

pub fn trim_char_hit(p: TrimPattern, c: char) -> (r: bool)
    ensures
        r == trim_hit(p, c),
{
    match p {
        TrimPattern::Whitespace => char_is_ws(c),
        TrimPattern::Char(x) => c == x,
    }
}

pub fn trim_chars(v: &Vec<char>) -> (r: Vec<char>)
    ensures
        r@ == trim(v@),
{
    trim_chars_by(v, TrimPattern::Whitespace)
}

pub fn trim_str(s: &str) -> (r: Vec<char>)
    ensures
        r@ == trim(s@),
{
    let v = chars_of(s);
    trim_chars(&v)
}

// ---------------------------------------------------------------------------
// Substring search
// ---------------------------------------------------------------------------
pub open spec fn matches_at(s: Seq<char>, p: Seq<char>, i: int) -> bool {
    0 <= i && i + p.len() <= s.len() && s.subrange(i, i + p.len()) == p
}

/// First index at or after `i` where `p` occurs in `s`.
pub open spec fn find_from(s: Seq<char>, p: Seq<char>, i: int) -> Option<int>
    decreases s.len() + 1 - i,
{
    if i < 0 || i + p.len() > s.len() {
        None
    } else if matches_at(s, p, i) {
        Some(i)
    } else {
        find_from(s, p, i + 1)
    }
}

/// `str::find` (as a character index).
pub open spec fn find(s: Seq<char>, p: Seq<char>) -> Option<int> {
    find_from(s, p, 0)
}

/// `str::contains`.
pub open spec fn contains(s: Seq<char>, p: Seq<char>) -> bool {
    find(s, p) is Some
}

pub proof fn lemma_find_from(s: Seq<char>, p: Seq<char>, i: int)
    requires
        0 <= i,
    ensures
        find_from(s, p, i) matches Some(k) ==> i <= k && matches_at(s, p, k) && forall|j: int|
            i <= j < k ==> !matches_at(s, p, j),
        find_from(s, p, i) is None ==> forall|j: int| i <= j ==> !matches_at(s, p, j),
    decreases s.len() + 1 - i,
{
    if i + p.len() > s.len() {
    } else if matches_at(s, p, i) {
    } else {
        lemma_find_from(s, p, i + 1);
    }
}

/// `contains` holds exactly when some position matches.
pub proof fn lemma_contains(s: Seq<char>, p: Seq<char>)
    ensures
        contains(s, p) <==> exists|j: int| matches_at(s, p, j),
{
    lemma_find_from(s, p, 0);
    if contains(s, p) {
        let k = find(s, p)->0;
        assert(matches_at(s, p, k));
    }
}

/// Whether `p` occurs in `s` at position `i`.
pub fn match_at(s: &Vec<char>, p: &Vec<char>, i: usize) -> (r: bool)
    requires
        i + p.len() <= s.len(),
    ensures
        r == matches_at(s@, p@, i as int),
{
    let mut k: usize = 0;
    while k < p.len()
        invariant
            i + p.len() <= s.len(),
            0 <= k <= p.len(),
            forall|j: int| 0 <= j < k ==> s@[i + j] == p@[j],
        decreases p.len() - k,
    {
        if s[i + k] != p[k] {
            assert(s@.subrange(i as int, i + p.len())[k as int] != p@[k as int]);
            return false;
        }
        k = k + 1;
    }
    assert(s@.subrange(i as int, i + p.len()) =~= p@);
    true
}

pub fn find_chars_from(s: &Vec<char>, p: &Vec<char>, from: usize) -> (r: Option<usize>)
    ensures
        r matches Some(k) ==> find_from(s@, p@, from as int) == Some(k as int),
        r is None ==> find_from(s@, p@, from as int) is None,
{
    if p.len() > s.len() || from > s.len() - p.len() {
        return None;
    }
    if p.len() == 0 {
        assert(s@.subrange(from as int, from as int) =~= p@);
        return Some(from);
    }
    let mut i = from;
    while i <= s.len() - p.len()
        invariant
            0 < p.len() <= s.len(),
            from <= i <= s.len(),
            find_from(s@, p@, from as int) == find_from(s@, p@, i as int),
        decreases s.len() - i,
    {
        if match_at(s, p, i) {
            return Some(i);
        }
        i = i + 1;
    }
    None
}

pub fn find_chars(s: &Vec<char>, p: &Vec<char>) -> (r: Option<usize>)
    ensures
        r matches Some(k) ==> find(s@, p@) == Some(k as int),
        r is None ==> find(s@, p@) is None,
{
    find_chars_from(s, p, 0)
}

pub fn contains_chars(s: &Vec<char>, p: &Vec<char>) -> (r: bool)
    ensures
        r == contains(s@, p@),
{
    find_chars(s, p).is_some()
}

pub open spec fn starts_with(s: Seq<char>, p: Seq<char>) -> bool {
    p.len() <= s.len() && s.subrange(0, p.len() as int) == p
}

pub open spec fn ends_with(s: Seq<char>, p: Seq<char>) -> bool {
    p.len() <= s.len() && s.subrange(s.len() - p.len(), s.len() as int) == p
}

pub fn starts_with_chars(s: &Vec<char>, p: &Vec<char>) -> (r: bool)
    ensures
        r == starts_with(s@, p@),
{
    if p.len() > s.len() {
        false
    } else {
        match_at(s, p, 0)
    }
}

pub fn ends_with_chars(s: &Vec<char>, p: &Vec<char>) -> (r: bool)
    ensures
        r == ends_with(s@, p@),
{
    if p.len() > s.len() {
        false
    } else {
        match_at(s, p, s.len() - p.len())
    }
}

/// Index of the last occurrence of `c` in `s`.
pub open spec fn last_index_of(s: Seq<char>, c: char) -> Option<int>
    decreases s.len(),
{
    if s.len() == 0 {
        None
    } else if s.last() == c {
        Some(s.len() - 1)
    } else {
        last_index_of(s.drop_last(), c)
    }
}

pub proof fn lemma_last_index_of(s: Seq<char>, c: char)
    ensures
        last_index_of(s, c) matches Some(k) ==> 0 <= k < s.len() && s[k] == c && forall|j: int|
            k < j < s.len() ==> s[j] != c,
        last_index_of(s, c) is None ==> forall|j: int| 0 <= j < s.len() ==> s[j] != c,
    decreases s.len(),
{
    if s.len() > 0 && s.last() != c {
        let t = s.drop_last();
        lemma_last_index_of(t, c);
        assert forall|j: int| 0 <= j < t.len() implies t[j] == s[j] by {}
    }
}

pub fn last_index_of_char(s: &Vec<char>, c: char) -> (r: Option<usize>)
    ensures
        r matches Some(k) ==> last_index_of(s@, c) == Some(k as int),
        r is None ==> last_index_of(s@, c) is None,
{
    let mut j = s.len();
    assert(s@.take(j as int) =~= s@);
    while j > 0
        invariant
            0 <= j <= s.len(),
            last_index_of(s@, c) == last_index_of(s@.take(j as int), c),
        decreases j,
    {
        assert(s@.take(j as int).drop_last() == s@.take(j - 1));
        if s[j - 1] == c {
            return Some(j - 1);
        }
        j = j - 1;
    }
    None
}

// ---------------------------------------------------------------------------
// Replacing
// ---------------------------------------------------------------------------
/// `str::replace`: every non-overlapping occurrence of `p`, from left to
/// right, replaced by `r` (`p` non-empty).
pub open spec fn replace_all(s: Seq<char>, p: Seq<char>, r: Seq<char>) -> Seq<char>
    decreases s.len(),
{
    if p.len() == 0 {
        s
    } else {
        match find(s, p) {
            None => s,
            Some(k) => if 0 <= k && k + p.len() <= s.len() {
                s.subrange(0, k) + r + replace_all(s.subrange(k + p.len(), s.len() as int), p, r)
            } else {
                s
            },
        }
    }
}

pub proof fn lemma_find_from_shift(s: Seq<char>, p: Seq<char>, i: int, off: int)
    requires
        0 <= off <= i,
        off <= s.len(),
    ensures
        find_from(s, p, i) == (match find_from(s.subrange(off, s.len() as int), p, i - off) {
            Some(k) => Some(k + off),
            None => None::<int>,
        }),
    decreases s.len() + 1 - i,
{
    let t = s.subrange(off, s.len() as int);
    if i + p.len() > s.len() {
    } else {
        assert(matches_at(s, p, i) == matches_at(t, p, i - off)) by {
            assert(s.subrange(i, i + p.len()) =~= t.subrange(i - off, i - off + p.len()));
        }
        if !matches_at(s, p, i) {
            lemma_find_from_shift(s, p, i + 1, off);
        }
    }
}

pub fn replace_chars(s: &Vec<char>, p: &Vec<char>, r: &Vec<char>) -> (out: Vec<char>)
    requires
        p.len() > 0,
    ensures
        out@ == replace_all(s@, p@, r@),
{
    let mut out: Vec<char> = Vec::new();
    let mut pos: usize = 0;
    assert(s@.subrange(0, s@.len() as int) =~= s@);
    assert(out@ + s@ =~= s@);
    loop
        invariant
            p.len() > 0,
            pos <= s.len(),
            out@ + replace_all(s@.subrange(pos as int, s@.len() as int), p@, r@) == replace_all(
                s@,
                p@,
                r@,
            ),
        decreases s.len() - pos,
    {
        let ghost rest = s@.subrange(pos as int, s@.len() as int);
        match find_chars_from(s, p, pos) {
            None => {
                proof {
                    lemma_find_from_shift(s@, p@, pos as int, pos as int);
                }
                let tail = copy_chars(s, pos, s.len());
                let ghost before = out@;
                extend_chars(&mut out, &tail);
                return out;
            },
            Some(k) => {
                proof {
                    lemma_find_from_shift(s@, p@, pos as int, pos as int);
                    lemma_find_from(s@, p@, pos as int);
                    let kk = k - pos;
                    assert(find(rest, p@) == Some(kk));
                    assert(rest.subrange(0, kk) =~= s@.subrange(pos as int, k as int));
                    assert(rest.subrange(kk + p.len(), rest.len() as int) =~= s@.subrange(
                        k + p.len(),
                        s@.len() as int,
                    ));
                }
                let mid = copy_chars(s, pos, k);
                let ghost before = out@;
                extend_chars(&mut out, &mid);
                extend_chars(&mut out, r);
                assert(out@ == before + s@.subrange(pos as int, k as int) + r@);
                pos = k + p.len();
            },
        }
    }
}

// ---------------------------------------------------------------------------
// Decimal numbers
// ---------------------------------------------------------------------------
pub open spec fn digit_char(d: int) -> char {
    seq!['0', '1', '2', '3', '4', '5', '6', '7', '8', '9'][d]
}

/// The decimal representation of `n` (what `{}` prints for an unsigned integer).
pub open spec fn decimal(n: nat) -> Seq<char>
    decreases n,
{
    if n < 10 {
        seq![digit_char(n as int)]
    } else {
        decimal(n / 10).push(digit_char((n % 10) as int))
    }
}

/// `decimal(n)` left-padded with zeros to `width` characters (`{:0width}`).
pub open spec fn zero_pad(s: Seq<char>, width: nat) -> Seq<char> {
    if s.len() >= width {
        s
    } else {
        Seq::new((width - s.len()) as nat, |i: int| '0') + s
    }
}

pub fn digit(d: u64) -> (c: char)
    requires
        d < 10,
    ensures
        c == digit_char(d as int),
{
    match d {
        0 => '0',
        1 => '1',
        2 => '2',
        3 => '3',
        4 => '4',
        5 => '5',
        6 => '6',
        7 => '7',
        8 => '8',
        _ => '9',
    }
}

pub fn decimal_chars(n: u64) -> (r: Vec<char>)
    ensures
        r@ == decimal(n as nat),
    decreases n,
{
    if n < 10 {
        let mut r: Vec<char> = Vec::new();
        r.push(digit(n));
        r
    } else {
        let mut r = decimal_chars(n / 10);
        r.push(digit(n % 10));
        r
    }
}

pub fn padded_decimal_chars(n: u64, width: usize) -> (r: Vec<char>)
    ensures
        r@ == zero_pad(decimal(n as nat), width as nat),
{
    let d = decimal_chars(n);
    if d.len() >= width {
        d
    } else {
        let mut r: Vec<char> = Vec::new();
        let fill = width - d.len();
        for i in 0..fill
            invariant
                r@ == Seq::new(i as nat, |j: int| '0'),
        {
            r.push('0');
            assert(r@ =~= Seq::new((i + 1) as nat, |j: int| '0'));
        }
        extend_chars(&mut r, &d);
        assert(r@ =~= zero_pad(decimal(n as nat), width as nat));
        r
    }
}

/// Appends the decimal form of `n`.
pub fn push_decimal(s: &mut String, n: u64)
    ensures
        final(s)@ == old(s)@ + decimal(n as nat),
{
    let d = decimal_chars(n);
    push_chars(s, &d);
}

pub fn decimal_string(n: u64) -> (s: String)
    ensures
        s@ == decimal(n as nat),
{
    let d = decimal_chars(n);
    string_of(&d)
}

pub open spec fn digit_value(c: char) -> nat {
    ((c as u32) - ('0' as u32)) as nat
}

pub open spec fn all_digits(s: Seq<char>) -> bool {
    forall|i: int| 0 <= i < s.len() ==> is_digit(#[trigger] s[i])
}

pub open spec fn digits_value(s: Seq<char>) -> nat
    decreases s.len(),
{
    if s.len() == 0 {
        0
    } else {
        digits_value(s.drop_last()) * 10 + digit_value(s.last())
    }
}

/// The value `str::parse::<usize>` reads: an optional `+`, then one or more
/// ASCII digits; `None` where that shape does not hold.
pub open spec fn parse_uint(s: Seq<char>) -> Option<nat> {
    let body = if s.len() > 0 && s[0] == '+' {
        s.drop_first()
    } else {
        s
    };
    if body.len() > 0 && all_digits(body) {
        Some(digits_value(body))
    } else {
        None
    }
}

proof fn lemma_digits_value_grows(s: Seq<char>, k: int)
    requires
        0 <= k <= s.len(),
        all_digits(s),
    ensures
        digits_value(s.take(k)) <= digits_value(s),
    decreases s.len() - k,
{
    if k < s.len() {
        lemma_digits_value_grows(s, k + 1);
        assert(s.take(k + 1).drop_last() == s.take(k));
    } else {
        assert(s.take(k) == s);
    }
}

/// `str::parse::<usize>` on the characters `s`.
pub fn parse_usize(s: &Vec<char>) -> (r: Option<usize>)
    ensures
        r matches Some(v) ==> parse_uint(s@) == Some(v as nat),
        r is None ==> parse_uint(s@) is None || parse_uint(s@)->0 > usize::MAX,
{
    let mut start: usize = 0;
    if s.len() > 0 && s[0] == '+' {
        start = 1;
    }
    let ghost body = s@.subrange(start as int, s@.len() as int);
    assert(body == (if s@.len() > 0 && s@[0] == '+' {
        s@.drop_first()
    } else {
        s@
    }));
    if start >= s.len() {
        return None;
    }
    let mut v: usize = 0;
    let mut i = start;
    while i < s.len()
        invariant
            start <= i <= s.len(),
            body == s@.subrange(start as int, s@.len() as int),
            body == (if s@.len() > 0 && s@[0] == '+' {
                s@.drop_first()
            } else {
                s@
            }),
            all_digits(body.take(i - start)),
            v as nat == digits_value(body.take(i - start)),
        decreases s.len() - i,
    {
        let c = s[i];
        assert(body[i - start] == c);
        if !('0' <= c && c <= '9') {
            assert(!is_digit(body[i - start]));
            assert(!all_digits(body));
            assert(parse_uint(s@) is None);
            return None;
        }
        let d: u32 = (c as u32) - ('0' as u32);
        assert(body.take(i + 1 - start).drop_last() == body.take(i - start));
        let ghost next = digits_value(body.take(i + 1 - start));
        assert(next == v * 10 + d);
        if v > (usize::MAX - (d as usize)) / 10 {
            proof {
                assert(v * 10 + d > usize::MAX) by (nonlinear_arith)
                    requires
                        v > (usize::MAX - d) / 10,
                        d < 10,
                ;
                if all_digits(body) {
                    lemma_digits_value_grows(body, i + 1 - start);
                    assert(parse_uint(s@) == Some(digits_value(body)));
                } else {
                    assert(parse_uint(s@) is None);
                }
            }
            return None;
        }
        assert(v * 10 + d <= usize::MAX) by (nonlinear_arith)
            requires
                v <= (usize::MAX - d) / 10,
                d < 10,
        ;
        v = v * 10 + (d as usize);
        i = i + 1;
    }
    assert(body.take(body.len() as int) == body);
    Some(v)
}

/// `str::parse::<u64>` on the characters `s`.
pub fn parse_u64(s: &Vec<char>) -> (r: Option<u64>)
    ensures
        r matches Some(v) ==> parse_uint(s@) == Some(v as nat),
        r is None ==> parse_uint(s@) is None || parse_uint(s@)->0 > u64::MAX,
{
    let mut start: usize = 0;
    if s.len() > 0 && s[0] == '+' {
        start = 1;
    }
    let ghost body = s@.subrange(start as int, s@.len() as int);
    assert(body == (if s@.len() > 0 && s@[0] == '+' {
        s@.drop_first()
    } else {
        s@
    }));
    if start >= s.len() {
        return None;
    }
    let mut v: u64 = 0;
    let mut i = start;
    while i < s.len()
        invariant
            start <= i <= s.len(),
            body == s@.subrange(start as int, s@.len() as int),
            body == (if s@.len() > 0 && s@[0] == '+' {
                s@.drop_first()
            } else {
                s@
            }),
            all_digits(body.take(i - start)),
            v as nat == digits_value(body.take(i - start)),
        decreases s.len() - i,
    {
        let c = s[i];
        assert(body[i - start] == c);
        if !('0' <= c && c <= '9') {
            assert(!is_digit(body[i - start]));
            assert(!all_digits(body));
            assert(parse_uint(s@) is None);
            return None;
        }
        let d: u32 = (c as u32) - ('0' as u32);
        assert(body.take(i + 1 - start).drop_last() == body.take(i - start));
        let ghost next = digits_value(body.take(i + 1 - start));
        assert(next == v * 10 + d);
        if v > (u64::MAX - (d as u64)) / 10 {
            proof {
                assert(v * 10 + d > u64::MAX) by (nonlinear_arith)
                    requires
                        v > (u64::MAX - d) / 10,
                        d < 10,
                ;
                if all_digits(body) {
                    lemma_digits_value_grows(body, i + 1 - start);
                    assert(parse_uint(s@) == Some(digits_value(body)));
                } else {
                    assert(parse_uint(s@) is None);
                }
            }
            return None;
        }
        assert(v * 10 + d <= u64::MAX) by (nonlinear_arith)
            requires
                v <= (u64::MAX - d) / 10,
                d < 10,
        ;
        v = v * 10 + (d as u64);
        i = i + 1;
    }
    assert(body.take(body.len() as int) == body);
    Some(v)
}

// ---------------------------------------------------------------------------
// UTF-8 byte lengths
// ---------------------------------------------------------------------------
/// Number of bytes of the UTF-8 encoding of `c`.
pub open spec fn utf8_width(c: char) -> nat {
    if (c as u32) < 0x80 {
        1
    } else if (c as u32) < 0x800 {
        2
    } else if (c as u32) < 0x10000 {
        3
    } else {
        4
    }
}

/// Number of bytes of the UTF-8 encoding of `s` (`str::len`).
pub open spec fn utf8_len(s: Seq<char>) -> nat
    decreases s.len(),
{
    if s.len() == 0 {
        0
    } else {
        utf8_len(s.drop_last()) + utf8_width(s.last())
    }
}

/// Number of leading characters of `s` whose encoding is exactly `n` bytes,
/// if byte offset `n` falls on a character boundary.
pub open spec fn chars_in_bytes(s: Seq<char>, n: nat) -> Option<nat>
    decreases s.len(),
{
    if n == 0 {
        Some(0)
    } else if s.len() == 0 || utf8_width(s[0]) > n {
        None
    } else {
        match chars_in_bytes(s.drop_first(), (n - utf8_width(s[0])) as nat) {
            Some(k) => Some(k + 1),
            None => None,
        }
    }
}

pub fn char_utf8_width(c: char) -> (w: usize)
    ensures
        w == utf8_width(c),
{
    let u = c as u32;
    if u < 0x80 {
        1
    } else if u < 0x800 {
        2
    } else if u < 0x10000 {
        3
    } else {
        4
    }
}

/// Byte length of `v`, or `None` when it exceeds `limit`.
pub fn utf8_len_exceeds(v: &Vec<char>, limit: usize) -> (r: bool)
    ensures
        r == (utf8_len(v@) > limit),
{
    let mut total: usize = 0;
    for i in 0..v.len()
        invariant
            total <= limit,
            total == utf8_len(v@.take(i as int)),
    {
        assert(v@.take(i + 1).drop_last() == v@.take(i as int));
        let w = char_utf8_width(v[i]);
        if w > limit - total {
            proof {
                lemma_utf8_len_grows(v@, i + 1);
            }
            return true;
        }
        total = total + w;
    }
    assert(v@.take(v.len() as int) == v@);
    false
}

proof fn lemma_utf8_len_grows(s: Seq<char>, k: int)
    requires
        0 <= k <= s.len(),
    ensures
        utf8_len(s.take(k)) <= utf8_len(s),
    decreases s.len() - k,
{
    if k < s.len() {
        lemma_utf8_len_grows(s, k + 1);
        assert(s.take(k + 1).drop_last() == s.take(k));
    } else {
        assert(s.take(k) == s);
    }
}

/// Number of leading characters spanning exactly `n` bytes, if any.
pub fn chars_in_bytes_exec(v: &Vec<char>, n: usize) -> (r: Option<usize>)
    ensures
        r matches Some(k) ==> chars_in_bytes(v@, n as nat) == Some(k as nat),
        r is None ==> chars_in_bytes(v@, n as nat) is None,
{
    let mut i: usize = 0;
    let mut left: usize = n;
    assert(v@.skip(0) =~= v@);
    while left > 0
        invariant
            i <= v.len(),
            left <= n,
            chars_in_bytes(v@, n as nat) == (match chars_in_bytes(
                v@.skip(i as int),
                left as nat,
            ) {
                Some(k) => Some((k + i) as nat),
                None => None::<nat>,
            }),
        decreases left,
    {
        if i >= v.len() {
            assert(v@.skip(i as int).len() == 0);
            return None;
        }
        let w = char_utf8_width(v[i]);
        assert(v@.skip(i as int)[0] == v@[i as int]);
        if w > left {
            return None;
        }
        assert(v@.skip(i as int).drop_first() == v@.skip(i + 1));
        left = left - w;
        i = i + 1;
    }
    Some(i)
}


// ---------------------------------------------------------------------------
// Lines and joining
// ---------------------------------------------------------------------------
pub open spec fn vviews(v: Seq<Vec<char>>) -> Seq<Seq<char>> {
    v.map_values(|x: Vec<char>| x@)
}

pub open spec fn sviews(v: Seq<String>) -> Seq<Seq<char>> {
    v.map_values(|x: String| x@)
}

/// A completed line loses one trailing carriage return.
pub open spec fn strip_cr(l: Seq<char>) -> Seq<char> {
    if l.len() > 0 && l.last() == '\r' {
        l.drop_last()
    } else {
        l
    }
}

/// Lines completed so far and the line being read, after reading `s`.
pub open spec fn lines_acc(s: Seq<char>) -> (Seq<Seq<char>>, Seq<char>)
    decreases s.len(),
{
    if s.len() == 0 {
        (seq![], seq![])
    } else {
        let (done, cur) = lines_acc(s.drop_last());
        if s.last() == '\n' {
            (done.push(strip_cr(cur)), seq![])
        } else {
            (done, cur.push(s.last()))
        }
    }
}

/// `str::lines`: split at `\n` (dropping a `\r` before it); a final line
/// without terminator counts when it is not empty.
pub open spec fn lines(s: Seq<char>) -> Seq<Seq<char>> {
    let (done, cur) = lines_acc(s);
    if cur.len() == 0 {
        done
    } else {
        done.push(cur)
    }
}

pub fn strip_cr_chars(l: Vec<char>) -> (r: Vec<char>)
    ensures
        r@ == strip_cr(l@),
{
    let mut l = l;
    if l.len() > 0 && l[l.len() - 1] == '\r' {
        l.pop();
    }
    l
}

pub fn lines_of(s: &Vec<char>) -> (r: Vec<Vec<char>>)
    ensures
        vviews(r@) == lines(s@),
{
    let mut done: Vec<Vec<char>> = Vec::new();
    let mut cur: Vec<char> = Vec::new();
    for i in 0..s.len()
        invariant
            (vviews(done@), cur@) == lines_acc(s@.take(i as int)),
    {
        assert(s@.take(i + 1).drop_last() == s@.take(i as int));
        let c = s[i];
        if c == '\n' {
            let finished = strip_cr_chars(cur);
            done.push(finished);
            cur = Vec::new();
            assert(vviews(done@) == lines_acc(s@.take(i as int)).0.push(strip_cr(
                lines_acc(s@.take(i as int)).1,
            )));
        } else {
            cur.push(c);
        }
    }
    assert(s@.take(s.len() as int) == s@);
    if cur.len() > 0 {
        done.push(cur);
    }
    done
}

/// The parts joined with `sep` between neighbours (`[..].join(sep)`).
pub open spec fn join(parts: Seq<Seq<char>>, sep: Seq<char>) -> Seq<char>
    decreases parts.len(),
{
    if parts.len() == 0 {
        seq![]
    } else if parts.len() == 1 {
        parts[0]
    } else {
        join(parts.drop_last(), sep) + sep + parts.last()
    }
}

pub fn join_strings(parts: &Vec<String>, sep: &str) -> (r: String)
    ensures
        r@ == join(sviews(parts@), sep@),
{
    let mut r = String::new();
    for i in 0..parts.len()
        invariant
            r@ == join(sviews(parts@.take(i as int)), sep@),
    {
        assert(sviews(parts@.take(i + 1)).drop_last() == sviews(parts@.take(i as int)));
        if i > 0 {
            r.push_str(sep);
        }
        r.push_str(parts[i].as_str());
    }
    assert(parts@.take(parts.len() as int) == parts@);
    r
}

/// Appends a copy of `s` to a vector of strings.
pub fn push_str_item(v: &mut Vec<String>, s: &str)
    ensures
        sviews(final(v)@) == sviews(old(v)@).push(s@),
{
    v.push(String::from_str(s));
    assert(sviews(v@) =~= sviews(old(v)@).push(s@));
}

pub fn push_string_item(v: &mut Vec<String>, s: String)
    ensures
        sviews(final(v)@) == sviews(old(v)@).push(s@),
{
    v.push(s);
    assert(sviews(v@) =~= sviews(old(v)@).push(s@));
}


// ---------------------------------------------------------------------------
// Ordering
// ---------------------------------------------------------------------------
/// Lexicographic order of character sequences by code point, which is the
/// order of `String`'s `Ord` (UTF-8 preserves code point order).
pub open spec fn seq_lt(a: Seq<char>, b: Seq<char>) -> bool
    decreases a.len(),
{
    if b.len() == 0 {
        false
    } else if a.len() == 0 {
        true
    } else if a[0] < b[0] {
        true
    } else if a[0] > b[0] {
        false
    } else {
        seq_lt(a.drop_first(), b.drop_first())
    }
}

pub fn chars_lt(a: &Vec<char>, b: &Vec<char>) -> (r: bool)
    ensures
        r == seq_lt(a@, b@),
{
    let mut i: usize = 0;
    assert(a@.skip(0) == a@);
    assert(b@.skip(0) == b@);
    while i < a.len() && i < b.len()
        invariant
            i <= a.len(),
            i <= b.len(),
            seq_lt(a@, b@) == seq_lt(a@.skip(i as int), b@.skip(i as int)),
        decreases a.len() - i,
    {
        let x = a[i];
        let y = b[i];
        assert(a@.skip(i as int)[0] == a@[i as int]);
        assert(b@.skip(i as int)[0] == b@[i as int]);
        if x < y {
            return true;
        }
        if x > y {
            return false;
        }
        assert(a@.skip(i as int).drop_first() == a@.skip(i + 1));
        assert(b@.skip(i as int).drop_first() == b@.skip(i + 1));
        i = i + 1;
    }
    i < b.len()
}

pub proof fn lemma_seq_lt_irreflexive(a: Seq<char>)
    ensures
        !seq_lt(a, a),
    decreases a.len(),
{
    if a.len() > 0 {
        lemma_seq_lt_irreflexive(a.drop_first());
    }
}

pub proof fn lemma_seq_lt_asym(a: Seq<char>, b: Seq<char>)
    ensures
        seq_lt(a, b) ==> !seq_lt(b, a),
    decreases a.len(),
{
    if a.len() > 0 && b.len() > 0 && a[0] == b[0] {
        lemma_seq_lt_asym(a.drop_first(), b.drop_first());
    }
}

pub proof fn lemma_seq_lt_total(a: Seq<char>, b: Seq<char>)
    ensures
        seq_lt(a, b) || seq_lt(b, a) || a == b,
    decreases a.len(),
{
    if a.len() > 0 && b.len() > 0 && a[0] == b[0] {
        lemma_seq_lt_total(a.drop_first(), b.drop_first());
        if a.drop_first() == b.drop_first() {
            assert(a =~= seq![a[0]] + a.drop_first());
            assert(b =~= seq![b[0]] + b.drop_first());
        }
    } else if a.len() == 0 && b.len() == 0 {
        assert(a =~= b);
    }
}

pub proof fn lemma_seq_lt_trans(a: Seq<char>, b: Seq<char>, c: Seq<char>)
    requires
        seq_lt(a, b),
        seq_lt(b, c),
    ensures
        seq_lt(a, c),
    decreases a.len(),
{
    if a.len() > 0 && b.len() > 0 && c.len() > 0 && a[0] == b[0] && b[0] == c[0] {
        lemma_seq_lt_trans(a.drop_first(), b.drop_first(), c.drop_first());
    }
}

} // verus!
