//! Clickable-candidate metadata and the deterministic heuristic that
//! picks one when the model's choice is missing or invalid.
//!
//! Scores are integers in thousandths of the conceptual unit: a prompt
//! word found in the candidate's text or label counts 1000, semantic
//! nudges 600–1000, a size term up to 600 and a center-proximity term
//! up to 500. Text matching is ASCII-case-insensitive. Ties break by
//! larger area, then smaller index, so the choice is a function of the
//! inputs alone.

use crate::aggregate::trunc_div;
use crate::text::{is_space, match_at};
use vstd::prelude::*;

verus! {

/// A DOM element snapshot sent to the model: index-tagged text and
/// semantic attributes, whitespace-collapsed and capped.
pub struct UiCandidate {
    pub id: usize,
    pub tag: Vec<char>,
    pub text: Vec<char>,
    pub aria: Vec<char>,
    pub role: Vec<char>,
    pub type_attr: Vec<char>,
    pub name: Vec<char>,
    pub value: Vec<char>,
    pub data_test: Vec<char>,
}

/// A candidate with the shape and state hints the heuristic uses. The
/// live element handle stays with the caller, at the same index.
pub struct Candidate {
    pub meta: UiCandidate,
    pub rect: Option<(i32, i32, i32, i32)>,
    pub visible: bool,
    pub disabled: bool,
}

/// ASCII lowercasing of one character.
pub open spec fn lower_char(c: char) -> char {
    if 65 <= c as u32 <= 90 {
        (((c as u32) + 32) as u8) as char
    } else {
        c
    }
}

/// ASCII lowercasing of a text.
pub open spec fn lower_seq(s: Seq<char>) -> Seq<char> {
    s.map_values(|c: char| lower_char(c))
}

/// Lowercase a text (ASCII letters only).
pub fn to_lower(s: &Vec<char>) -> (r: Vec<char>)
    ensures
        r@ == lower_seq(s@),
{
    let mut out: Vec<char> = Vec::new();
    let mut i: usize = 0;
    while i < s.len()
        invariant
            i <= s@.len(),
            out@ == lower_seq(s@.take(i as int)),
        decreases s@.len() - i,
    {
        proof {
            assert(lower_seq(s@.take(i + 1)) =~= lower_seq(s@.take(i as int)).push(
                lower_char(s@[i as int]),
            ));
        }
        let c = s[i];
        let v = c as u32;
        if 65 <= v && v <= 90 {
            out.push(((v + 32) as u8) as char);
        } else {
            out.push(c);
        }
        i += 1;
    }
    proof {
        assert(s@.take(s@.len() as int) =~= s@);
    }
    out
}

/// Whether `w` occurs in `t` as a contiguous run.
pub open spec fn contains_sub(t: Seq<char>, w: Seq<char>) -> bool {
    exists|i: int| 0 <= i && i + w.len() <= t.len() && match_at(t, w, i)
}

/// Whether `w` occurs in `t`, by scan.
pub fn contains_chars(t: &Vec<char>, w: &Vec<char>) -> (r: bool)
    ensures
        r == contains_sub(t@, w@),
{
    let n = t.len();
    let m = w.len();
    if m > n {
        return false;
    }
    let mut i: usize = 0;
    while i <= n - m
        invariant
            i <= n,
            m <= n,
            n == t@.len(),
            m == w@.len(),
            forall|k: int| 0 <= k < i ==> !match_at(t@, w@, k),
        decreases n - i,
    {
        let mut j: usize = 0;
        while j < m && t[i + j] == w[j]
            invariant
                j <= m,
                i + m <= n,
                n == t@.len(),
                m == w@.len(),
                forall|k: int| 0 <= k < j ==> t@[i + k] == w@[k],
            decreases m - j,
        {
            j += 1;
        }
        if j == m {
            proof {
                assert(t@.subrange(i as int, i + m) =~= w@);
                assert(match_at(t@, w@, i as int));
                assert(contains_sub(t@, w@));
            }
            return true;
        }
        proof {
            assert(t@.subrange(i as int, i + m)[j as int] != w@[j as int]);
        }
        i += 1;
    }
    proof {
        assert(forall|k: int| 0 <= k && k + w@.len() <= t@.len() ==> !match_at(t@, w@, k));
    }
    false
}

/// The length of the leading run of non-space characters.
pub open spec fn word_len(s: Seq<char>) -> int
    decreases s.len(),
{
    if s.len() > 0 && !is_space(s[0]) {
        1 + word_len(s.drop_first())
    } else {
        0
    }
}

/// The leading non-space run lies within the text.
proof fn lemma_word_len_bounds(s: Seq<char>)
    ensures
        0 <= word_len(s) <= s.len(),
    decreases s.len(),
{
    if s.len() > 0 && !is_space(s[0]) {
        lemma_word_len_bounds(s.drop_first());
    }
}

/// The whitespace-separated words of a text, in order.
pub open spec fn words_of(s: Seq<char>) -> Seq<Seq<char>>
    decreases s.len() via words_of_dec
{
    if s.len() == 0 {
        Seq::empty()
    } else if is_space(s[0]) {
        words_of(s.drop_first())
    } else {
        let m = word_len(s);
        seq![s.take(m)] + words_of(s.skip(m))
    }
}

#[via_fn]
proof fn words_of_dec(s: Seq<char>) {
    if s.len() > 0 && !is_space(s[0]) {
        lemma_word_len_bounds(s.drop_first());
        assert(1 <= word_len(s) <= s.len());
    }
}

/// A run of non-spaces followed by a space (or the end) pins the word
/// length down.
proof fn lemma_word_len_at(s: Seq<char>, m: int)
    requires
        0 <= m <= s.len(),
        forall|k: int| 0 <= k < m ==> !is_space(#[trigger] s[k]),
        m < s.len() ==> is_space(s[m]),
    ensures
        word_len(s) == m,
    decreases m,
{
    if m > 0 {
        lemma_word_len_at(s.drop_first(), m - 1);
    }
}

/// How many of the words, of length at least three, occur in the text
/// or in the label.
pub open spec fn count_hits(ws: Seq<Seq<char>>, t: Seq<char>, a: Seq<char>) -> int
    decreases ws.len(),
{
    if ws.len() == 0 {
        0int
    } else {
        count_hits(ws.drop_last(), t, a) + if ws.last().len() >= 3 && (contains_sub(t, ws.last())
            || contains_sub(a, ws.last())) {
            1int
        } else {
            0int
        }
    }
}

/// Hit counts never exceed the number of words.
proof fn lemma_count_hits_le(ws: Seq<Seq<char>>, t: Seq<char>, a: Seq<char>)
    ensures
        0 <= count_hits(ws, t, a) <= ws.len(),
    decreases ws.len(),
{
    if ws.len() > 0 {
        lemma_count_hits_le(ws.drop_last(), t, a);
    }
}

/// Split a text into its whitespace-separated words.
pub fn split_words(s: &Vec<char>) -> (r: Vec<Vec<char>>)
    ensures
        r.deep_view() == words_of(s@),
{
    let n = s.len();
    let mut out: Vec<Vec<char>> = Vec::new();
    let mut i: usize = 0;
    proof {
        assert(s@.skip(0) =~= s@);
        assert(out.deep_view() + words_of(s@) =~~= words_of(s@));
    }
    while i < n
        invariant
            i <= n,
            n == s@.len(),
            out.deep_view() + words_of(s@.skip(i as int)) == words_of(s@),
        decreases n - i,
    {
        proof {
            assert(s@.skip(i as int)[0] == s@[i as int]);
            assert(s@.skip(i as int).drop_first() =~= s@.skip(i + 1));
        }
        if crate::text::is_space_char(s[i]) {
            i += 1;
        } else {
            // scan to the word's end
            let mut j: usize = i + 1;
            while j < n && !crate::text::is_space_char(s[j])
                invariant
                    i < j <= n,
                    n == s@.len(),
                    forall|k: int| i <= k < j ==> !is_space(#[trigger] s@[k]),
                decreases n - j,
            {
                j += 1;
            }
            proof {
                let rest = s@.skip(i as int);
                assert(forall|k: int| 0 <= k < j - i ==> !is_space(#[trigger] rest[k]));
                lemma_word_len_at(rest, j - i);
            }
            let mut word: Vec<char> = Vec::new();
            let mut k: usize = i;
            while k < j
                invariant
                    i <= k <= j <= n,
                    n == s@.len(),
                    word@ == s@.subrange(i as int, k as int),
                decreases j - k,
            {
                word.push(s[k]);
                proof {
                    assert(s@.subrange(i as int, k + 1) =~= s@.subrange(i as int, k as int).push(
                        s@[k as int],
                    ));
                }
                k += 1;
            }
            let ghost dv0 = out.deep_view();
            out.push(word);
            proof {
                let rest = s@.skip(i as int);
                assert(word@ =~= rest.take(j - i));
                assert(rest.skip(j - i) =~= s@.skip(j as int));
                assert(out.deep_view() =~~= dv0.push(word@));
                assert(dv0.push(word@) =~~= dv0 + seq![word@]);
                assert((dv0 + seq![word@]) + words_of(s@.skip(j as int)) =~~= dv0 + (seq![word@]
                    + words_of(s@.skip(j as int))));
                assert(words_of(rest) == seq![word@] + words_of(s@.skip(j as int)));
            }
            i = j;
        }
    }
    proof {
        assert(s@.skip(n as int).len() == 0);
        assert(out.deep_view() + words_of(s@.skip(n as int)) =~~= out.deep_view());
    }
    out
}


/// `r` is the integer square root of `n`.
pub open spec fn is_sqrt_of(n: int, r: int) -> bool {
    r >= 0 && r * r <= n && n < (r + 1) * (r + 1)
}

/// The integer square root.
pub open spec fn spec_isqrt(n: int) -> int {
    choose|r: int| is_sqrt_of(n, r)
}

/// Integer square roots are unique.
proof fn lemma_isqrt_unique(n: int, a: int, b: int)
    requires
        is_sqrt_of(n, a),
        is_sqrt_of(n, b),
    ensures
        a == b,
{
    if a < b {
        assert((a + 1) * (a + 1) <= b * b) by (nonlinear_arith)
            requires
                0 <= a,
                a + 1 <= b,
        ;
    }
    if b < a {
        assert((b + 1) * (b + 1) <= a * a) by (nonlinear_arith)
            requires
                0 <= b,
                b + 1 <= a,
        ;
    }
}

/// Every non-negative integer has a square root, and the chosen one is
/// it.
pub proof fn lemma_isqrt_exists(n: int)
    requires
        n >= 0,
    ensures
        is_sqrt_of(n, spec_isqrt(n)),
    decreases n,
{
    if n == 0 {
        assert(is_sqrt_of(0, 0));
    } else {
        lemma_isqrt_exists(n - 1);
        let r = spec_isqrt(n - 1);
        if (r + 1) * (r + 1) <= n {
            assert(is_sqrt_of(n, r + 1)) by (nonlinear_arith)
                requires
                    is_sqrt_of(n - 1, r),
                    (r + 1) * (r + 1) <= n,
            ;
        } else {
            assert(is_sqrt_of(n, r));
        }
    }
    assert(exists|r: int| is_sqrt_of(n, r));
}

/// The integer square root, by binary search.
fn isqrt(n: u64) -> (r: u64)
    ensures
        is_sqrt_of(n as int, r as int),
        r as int == spec_isqrt(n as int),
{
    let mut lo: u64 = 0;
    let mut hi: u64 = 0x1_0000_0000;
    proof {
        assert((0x1_0000_0000 as int) * 0x1_0000_0000 > u64::MAX) by (nonlinear_arith);
    }
    while lo + 1 < hi
        invariant
            lo < hi <= 0x1_0000_0000,
            (lo as int) * (lo as int) <= n,
            (n as int) < (hi as int) * (hi as int),
        decreases hi - lo,
    {
        let mid = lo + (hi - lo) / 2;
        proof {
            assert((mid as int) * (mid as int) < 0x1_0000_0000_0000_0000) by (nonlinear_arith)
                requires
                    mid < 0x1_0000_0000,
            ;
        }
        if mid * mid <= n {
            lo = mid;
        } else {
            hi = mid;
        }
    }
    proof {
        assert(is_sqrt_of(n as int, lo as int));
        lemma_isqrt_exists(n as int);
        lemma_isqrt_unique(n as int, lo as int, spec_isqrt(n as int));
    }
    lo
}

/// Squares grow with their argument.
proof fn lemma_isqrt_at_least(n: int, b: int)
    requires
        0 <= b,
        b * b <= n,
        is_sqrt_of(n, spec_isqrt(n)),
    ensures
        spec_isqrt(n) >= b,
{
    let r = spec_isqrt(n);
    if r < b {
        assert((r + 1) * (r + 1) <= b * b) by (nonlinear_arith)
            requires
                0 <= r,
                r + 1 <= b,
        ;
    }
}

/// The proximity-to-center term: up to 500 thousandths, fading to
/// nothing at 1100 pixels from the configured viewport center.
pub open spec fn center_term(dx: int, dy: int) -> int {
    let d = spec_isqrt(dx * dx + dy * dy);
    let raw = 1000 - (d * 10) / 11;
    if raw < 0 {
        0
    } else if raw > 500 {
        500
    } else {
        raw
    }
}

/// The size term: up to 600 thousandths, growing with the square root
/// of the candidate's area.
pub open spec fn size_term(area: int) -> int {
    let s = spec_isqrt(area) * 10;
    if s > 600 {
        600
    } else {
        s
    }
}

/// A candidate's clickable area, clamping negative extents to zero.
pub open spec fn cand_area(c: Candidate) -> int {
    match c.rect {
        Some((x, y, w, h)) => (if w < 0 {
            0
        } else {
            w as int
        }) * (if h < 0 {
            0
        } else {
            h as int
        }),
        None => 0,
    }
}

/// The deterministic score of a candidate for a prompt: word hits,
/// semantic nudges for buttons and send/submit/save wording, a size
/// term and a center-proximity term (the latter two only with a known
/// rectangle).
pub open spec fn spec_rank_score(prompt: Seq<char>, c: Candidate, vw: int, vh: int) -> int {
    let lp = lower_seq(prompt);
    let lt = lower_seq(c.meta.text@);
    let la = lower_seq(c.meta.aria@);
    let hits = count_hits(words_of(lp), lt, la);
    let sem = (if c.meta.tag@ == seq!['B', 'U', 'T', 'T', 'O', 'N'] {
        600int
    } else {
        0int
    }) + (if contains_sub(lt, seq!['s', 'e', 'n', 'd']) || contains_sub(
        la,
        seq!['s', 'e', 'n', 'd'],
    ) {
        1000int
    } else {
        0int
    }) + (if contains_sub(lt, seq!['s', 'u', 'b', 'm', 'i', 't']) || contains_sub(
        la,
        seq!['s', 'u', 'b', 'm', 'i', 't'],
    ) {
        900int
    } else {
        0int
    }) + (if contains_sub(lt, seq!['s', 'a', 'v', 'e']) || contains_sub(
        la,
        seq!['s', 'a', 'v', 'e'],
    ) {
        600int
    } else {
        0int
    });
    let shape = match c.rect {
        Some((x, y, w, h)) => {
            let cx = x + trunc_div(w as int, 2);
            let cy = y + trunc_div(h as int, 2);
            size_term(cand_area(c)) + center_term(
                cx - trunc_div(vw, 2),
                cy - trunc_div(vh, 2),
            )
        },
        None => 0,
    };
    hits * 1000 + sem + shape
}

/// Character-list equality.
pub fn eq_chars(a: &Vec<char>, b: &Vec<char>) -> (r: bool)
    ensures
        r == (a@ == b@),
{
    if a.len() != b.len() {
        return false;
    }
    let mut i: usize = 0;
    while i < a.len()
        invariant
            i <= a@.len(),
            a@.len() == b@.len(),
            forall|k: int| 0 <= k < i ==> a@[k] == b@[k],
        decreases a@.len() - i,
    {
        if a[i] != b[i] {
            return false;
        }
        i += 1;
    }
    proof {
        assert(a@ =~= b@);
    }
    true
}

/// Score a candidate for a prompt. Deterministic: the result is a
/// function of the arguments alone.
pub fn rank_score(prompt: &Vec<char>, c: &Candidate, vw: i32, vh: i32) -> (r: i64)
    requires
        prompt@.len() <= 0xFFFF_FFFF,
    ensures
        r as int == spec_rank_score(prompt@, *c, vw as int, vh as int),
{
    let lp = to_lower(prompt);
    let ws = split_words(&lp);
    let lt = to_lower(&c.meta.text);
    let la = to_lower(&c.meta.aria);
    proof {
        lemma_words_count(lower_seq(prompt@));
    }
    let mut hits: u64 = 0;
    let mut i: usize = 0;
    while i < ws.len()
        invariant
            i <= ws@.len(),
            ws.deep_view() == words_of(lower_seq(prompt@)),
            ws.deep_view().len() <= 0xFFFF_FFFF,
            lt@ == lower_seq(c.meta.text@),
            la@ == lower_seq(c.meta.aria@),
            hits == count_hits(ws.deep_view().take(i as int), lt@, la@),
            hits <= i,
        decreases ws@.len() - i,
    {
        proof {
            assert(ws.deep_view().take(i + 1).drop_last() =~~= ws.deep_view().take(i as int));
            assert(ws.deep_view().take(i + 1).last() =~= ws@[i as int]@);
        }
        let w = &ws[i];
        if w.len() >= 3 && (contains_chars(&lt, w) || contains_chars(&la, w)) {
            hits += 1;
        }
        i += 1;
    }
    proof {
        assert(ws.deep_view().take(ws.deep_view().len() as int) =~~= ws.deep_view());
    }
    let mut sem: i64 = 0;
    let btn = vec!['B', 'U', 'T', 'T', 'O', 'N'];
    proof {
        assert(btn@ =~= seq!['B', 'U', 'T', 'T', 'O', 'N']);
    }
    if eq_chars(&c.meta.tag, &btn) {
        sem += 600;
    }
    let send = vec!['s', 'e', 'n', 'd'];
    proof {
        assert(send@ =~= seq!['s', 'e', 'n', 'd']);
    }
    if contains_chars(&lt, &send) || contains_chars(&la, &send) {
        sem += 1000;
    }
    let submit = vec!['s', 'u', 'b', 'm', 'i', 't'];
    proof {
        assert(submit@ =~= seq!['s', 'u', 'b', 'm', 'i', 't']);
    }
    if contains_chars(&lt, &submit) || contains_chars(&la, &submit) {
        sem += 900;
    }
    let save = vec!['s', 'a', 'v', 'e'];
    proof {
        assert(save@ =~= seq!['s', 'a', 'v', 'e']);
    }
    if contains_chars(&lt, &save) || contains_chars(&la, &save) {
        sem += 600;
    }
    let shape: i64 = match c.rect {
        Some((x, y, w, h)) => {
            let wm: i64 = if w < 0 {
                0
            } else {
                w as i64
            };
            let hm: i64 = if h < 0 {
                0
            } else {
                h as i64
            };
            proof {
                assert(wm * hm <= 0x4000_0000_0000_0000) by (nonlinear_arith)
                    requires
                        0 <= wm < 0x8000_0000,
                        0 <= hm < 0x8000_0000,
                ;
            }
            let area: u64 = (wm * hm) as u64;
            let rt = isqrt(area);
            proof {
                assert(rt as int <= 0x8000_0000) by (nonlinear_arith)
                    requires
                        (rt as int) * (rt as int) <= 0x4000_0000_0000_0000,
                        rt >= 0,
                ;
            }
            let s10 = rt * 10;
            let size: i64 = if s10 > 600 {
                600
            } else {
                s10 as i64
            };
            let cx = (x as i64) + crate::aggregate::div_trunc(w as i64, 2);
            let cy = (y as i64) + crate::aggregate::div_trunc(h as i64, 2);
            let dx = cx - crate::aggregate::div_trunc(vw as i64, 2);
            let dy = cy - crate::aggregate::div_trunc(vh as i64, 2);
            let center: i64 = if dx >= 1100 || dx <= -1100 || dy >= 1100 || dy <= -1100 {
                proof {
                    assert(dx * dx + dy * dy >= 1100 * 1100) by (nonlinear_arith)
                        requires
                            dx >= 1100 || dx <= -1100 || dy >= 1100 || dy <= -1100,
                    ;
                    lemma_isqrt_exists(dx * dx + dy * dy);
                    lemma_isqrt_at_least(dx * dx + dy * dy, 1100);
                    vstd::arithmetic::div_mod::lemma_div_is_ordered(
                        (1100 * 10) as int,
                        spec_isqrt(dx * dx + dy * dy) * 10,
                        11int,
                    );
                }
                0
            } else {
                proof {
                    assert(0 <= dx * dx <= 1100 * 1100 && 0 <= dy * dy <= 1100 * 1100)
                        by (nonlinear_arith)
                        requires
                            -1100 <= dx <= 1100,
                            -1100 <= dy <= 1100,
                    ;
                }
                let d = isqrt((dx * dx + dy * dy) as u64);
                proof {
                    assert(d as int <= 1556) by (nonlinear_arith)
                        requires
                            (d as int) * (d as int) <= 2 * (1100 * 1100),
                            d >= 0,
                    ;
                }
                let t = (d * 10) / 11;
                let raw: i64 = 1000 - (t as i64);
                proof {
                    vstd::arithmetic::div_mod::lemma_div_pos_is_pos(d * 10, 11);
                    vstd::arithmetic::div_mod::lemma_div_nonincreasing(d * 10, 11);
                }
                if raw < 0 {
                    0
                } else if raw > 500 {
                    500
                } else {
                    raw
                }
            };
            size + center
        },
        None => 0,
    };
    proof {
        lemma_count_hits_le(words_of(lower_seq(prompt@)), lt@, la@);
    }
    (hits as i64) * 1000 + sem + shape
}

/// A text has no more words than characters.
proof fn lemma_words_count(s: Seq<char>)
    ensures
        words_of(s).len() <= s.len(),
    decreases s.len(),
{
    if s.len() == 0 {
    } else if is_space(s[0]) {
        lemma_words_count(s.drop_first());
    } else {
        lemma_word_len_bounds(s.drop_first());
        lemma_words_count(s.skip(word_len(s)));
    }
}

/// `a` strictly precedes `b` in the choice order: higher score first,
/// then larger area, then smaller index.
pub open spec fn beats(sa: int, aa: int, ia: int, sb: int, ab: int, ib: int) -> bool {
    sa > sb || (sa == sb && (aa > ab || (aa == ab && ia < ib)))
}

/// Whether a candidate takes part in the heuristic at all.
pub open spec fn eligible(c: Candidate) -> bool {
    c.visible && !c.disabled
}

/// Pick the best visible, enabled candidate for the prompt by score,
/// ties broken by area then index; with none eligible, fall back to
/// index 0. Deterministic by construction: same inputs, same choice.
pub fn choose_best_by_heuristic(
    prompt: &Vec<char>,
    cands: &Vec<Candidate>,
    vw: i32,
    vh: i32,
) -> (r: usize)
    requires
        prompt@.len() <= 0xFFFF_FFFF,
    ensures
        (forall|k: int| 0 <= k < cands@.len() ==> !eligible(#[trigger] cands@[k])) ==> r == 0,
        (exists|k: int| 0 <= k < cands@.len() && eligible(#[trigger] cands@[k])) ==> r
            < cands@.len() && eligible(cands@[r as int]) && (forall|k: int|
            0 <= k < cands@.len() && eligible(#[trigger] cands@[k]) && k != r ==> beats(
                spec_rank_score(prompt@, cands@[r as int], vw as int, vh as int),
                cand_area(cands@[r as int]),
                r as int,
                spec_rank_score(prompt@, cands@[k], vw as int, vh as int),
                cand_area(cands@[k]),
                k,
            )),
{
    let mut best: Option<(usize, i64, i64)> = None;
    let mut j: usize = 0;
    while j < cands.len()
        invariant
            j <= cands@.len(),
            prompt@.len() <= 0xFFFF_FFFF,
            match best {
                None => forall|k: int| 0 <= k < j ==> !eligible(#[trigger] cands@[k]),
                Some((bi, bs, ba)) => {
                    &&& (bi as int) < j
                    &&& eligible(cands@[bi as int])
                    &&& bs as int == spec_rank_score(
                        prompt@,
                        cands@[bi as int],
                        vw as int,
                        vh as int,
                    )
                    &&& ba as int == cand_area(cands@[bi as int])
                    &&& forall|k: int|
                        0 <= k < j && eligible(#[trigger] cands@[k]) && k != bi ==> beats(
                            bs as int,
                            ba as int,
                            bi as int,
                            spec_rank_score(prompt@, cands@[k], vw as int, vh as int),
                            cand_area(cands@[k]),
                            k,
                        )
                },
            },
        decreases cands@.len() - j,
    {
        let c = &cands[j];
        if c.visible && !c.disabled {
            let s = rank_score(prompt, c, vw, vh);
            let a: i64 = match c.rect {
                Some((x, y, w, h)) => {
                    let wm: i64 = if w < 0 {
                        0
                    } else {
                        w as i64
                    };
                    let hm: i64 = if h < 0 {
                        0
                    } else {
                        h as i64
                    };
                    proof {
                        assert(wm * hm <= 0x4000_0000_0000_0000) by (nonlinear_arith)
                            requires
                                0 <= wm < 0x8000_0000,
                                0 <= hm < 0x8000_0000,
                        ;
                    }
                    wm * hm
                },
                None => 0,
            };
            match best {
                None => {
                    best = Some((j, s, a));
                },
                Some((bi, bs, ba)) => {
                    if s > bs || (s == bs && a > ba) {
                        best = Some((j, s, a));
                    }
                },
            }
        }
        j += 1;
    }
    match best {
        None => 0,
        Some((bi, _, _)) => bi,
    }
}

/// Resolve the model's decision into a candidate index: an in-range id
/// is taken as is; a missing, invalid or out-of-range one falls back to
/// the deterministic heuristic.
pub fn resolve_candidate_index(
    decision: &Option<Option<usize>>,
    prompt: &Vec<char>,
    cands: &Vec<Candidate>,
    vw: i32,
    vh: i32,
) -> (r: usize)
    requires
        prompt@.len() <= 0xFFFF_FFFF,
    ensures
        match *decision {
            Some(Some(i)) if (i as int) < cands@.len() => r == i,
            _ => {
                &&& ((forall|k: int| 0 <= k < cands@.len() ==> !eligible(#[trigger] cands@[k]))
                    ==> r == 0)
                &&& ((exists|k: int| 0 <= k < cands@.len() && eligible(#[trigger] cands@[k]))
                    ==> r < cands@.len() && eligible(cands@[r as int]) && (forall|k: int|
                    0 <= k < cands@.len() && eligible(#[trigger] cands@[k]) && k != r ==> beats(
                        spec_rank_score(prompt@, cands@[r as int], vw as int, vh as int),
                        cand_area(cands@[r as int]),
                        r as int,
                        spec_rank_score(prompt@, cands@[k], vw as int, vh as int),
                        cand_area(cands@[k]),
                        k,
                    )))
            },
        },
{
    match decision {
        Some(Some(i)) => {
            if *i < cands.len() {
                *i
            } else {
                choose_best_by_heuristic(prompt, cands, vw, vh)
            }
        },
        _ => choose_best_by_heuristic(prompt, cands, vw, vh),
    }
}


/// The heuristic's choice is a function of the inputs alone: any two
/// indices that are eligible and beat every other eligible candidate
/// coincide, so repeated invocation on identical candidate lists and
/// prompt yields the same index.
pub proof fn lemma_heuristic_choice_unique(
    prompt: Seq<char>,
    cands: Seq<Candidate>,
    vw: int,
    vh: int,
    r1: int,
    r2: int,
)
    requires
        0 <= r1 < cands.len(),
        eligible(cands[r1]),
        forall|k: int|
            0 <= k < cands.len() && eligible(#[trigger] cands[k]) && k != r1 ==> beats(
                spec_rank_score(prompt, cands[r1], vw, vh),
                cand_area(cands[r1]),
                r1,
                spec_rank_score(prompt, cands[k], vw, vh),
                cand_area(cands[k]),
                k,
            ),
        0 <= r2 < cands.len(),
        eligible(cands[r2]),
        forall|k: int|
            0 <= k < cands.len() && eligible(#[trigger] cands[k]) && k != r2 ==> beats(
                spec_rank_score(prompt, cands[r2], vw, vh),
                cand_area(cands[r2]),
                r2,
                spec_rank_score(prompt, cands[k], vw, vh),
                cand_area(cands[k]),
                k,
            ),
    ensures
        r1 == r2,
{
    if r1 != r2 {
        assert(beats(
            spec_rank_score(prompt, cands[r1], vw, vh),
            cand_area(cands[r1]),
            r1,
            spec_rank_score(prompt, cands[r2], vw, vh),
            cand_area(cands[r2]),
            r2,
        ));
        assert(beats(
            spec_rank_score(prompt, cands[r2], vw, vh),
            cand_area(cands[r2]),
            r2,
            spec_rank_score(prompt, cands[r1], vw, vh),
            cand_area(cands[r1]),
            r1,
        ));
    }
}

} // verus!
