//! Verified text utilities: trimming, whitespace collapsing, code-fence
//! stripping, substring search and string equality.
//!
//! Whitespace here means the four ASCII whitespace characters (space,
//! tab, line feed, carriage return): the texts these functions see are
//! wire formats and machine output, where no other whitespace occurs.

use vstd::prelude::*;

verus! {

/// ASCII whitespace.
pub open spec fn is_space(c: char) -> bool {
    c == ' ' || c == '\t' || c == '\n' || c == '\r'
}

/// Executable twin of `is_space`.
pub fn is_space_char(c: char) -> (r: bool)
    ensures
        r == is_space(c),
{
    c == ' ' || c == '\t' || c == '\n' || c == '\r'
}

/// How many whitespace characters the text starts with.
pub open spec fn trim_start_idx(s: Seq<char>) -> int
    decreases s.len(),
{
    if s.len() > 0 && is_space(s[0]) {
        1 + trim_start_idx(s.drop_first())
    } else {
        0
    }
}

/// Where the trailing whitespace begins.
pub open spec fn trim_end_idx(s: Seq<char>) -> int
    decreases s.len(),
{
    if s.len() > 0 && is_space(s.last()) {
        trim_end_idx(s.drop_last())
    } else {
        s.len() as int
    }
}

/// The text without leading and trailing whitespace.
pub open spec fn trimmed(s: Seq<char>) -> Seq<char> {
    let st = trim_start_idx(s);
    let en = trim_end_idx(s);
    if st <= en {
        s.subrange(st, en)
    } else {
        Seq::empty()
    }
}

/// A prefix of whitespace followed by a non-space (or the end) pins the
/// leading-whitespace count down.
pub proof fn lemma_trim_start_at(s: Seq<char>, i: int)
    requires
        0 <= i <= s.len(),
        forall|k: int| 0 <= k < i ==> is_space(#[trigger] s[k]),
        i < s.len() ==> !is_space(s[i]),
    ensures
        trim_start_idx(s) == i,
    decreases i,
{
    if i == 0 {
    } else {
        lemma_trim_start_at(s.drop_first(), i - 1);
    }
}

/// A suffix of whitespace preceded by a non-space (or the start) pins
/// the trailing-whitespace boundary down.
proof fn lemma_trim_end_at(s: Seq<char>, i: int)
    requires
        0 <= i <= s.len(),
        forall|k: int| i <= k < s.len() ==> is_space(#[trigger] s[k]),
        i > 0 ==> !is_space(s[i - 1]),
    ensures
        trim_end_idx(s) == i,
    decreases s.len() - i,
{
    if i == s.len() {
    } else {
        assert(forall|k: int|
            i <= k < s.drop_last().len() ==> is_space(#[trigger] s.drop_last()[k]));
        lemma_trim_end_at(s.drop_last(), i);
    }
}

/// Trim ASCII whitespace from both ends, as a subslice.
pub fn trim_str<'a>(s: &'a str) -> (r: &'a str)
    ensures
        r@ == trimmed(s@),
{
    let n = s.unicode_len();
    let mut st: usize = 0;
    while st < n && is_space_char(s.get_char(st))
        invariant
            st <= n,
            n == s@.len(),
            forall|k: int| 0 <= k < st ==> is_space(#[trigger] s@[k]),
        decreases n - st,
    {
        st += 1;
    }
    proof {
        lemma_trim_start_at(s@, st as int);
    }
    let mut en: usize = n;
    while en > st && is_space_char(s.get_char(en - 1))
        invariant
            st <= en <= n,
            n == s@.len(),
            forall|k: int| 0 <= k < st ==> is_space(#[trigger] s@[k]),
            forall|k: int| en <= k < n ==> is_space(#[trigger] s@[k]),
        decreases en,
    {
        en -= 1;
    }
    if en == st {
        // The loops met: the whole text is whitespace (or empty).
        proof {
            if st < n {
                assert(is_space(s@[st as int]));  // from the end loop
                assert(!is_space(s@[st as int]));  // from the start loop
            }
            lemma_trim_end_at(s@, 0);
            assert(trimmed(s@) =~= s@.subrange(st as int, en as int));
        }
        s.substring_char(st, en)
    } else {
        proof {
            lemma_trim_end_at(s@, en as int);
            assert(trimmed(s@) =~= s@.subrange(st as int, en as int));
        }
        s.substring_char(st, en)
    }
}


/// Cap on cleaned visible text and labels, in characters, to bound
/// prompt size.
pub const CLEAN_CAP: usize = 200;

/// One pass of whitespace collapsing over the remaining text: runs of
/// whitespace become one space, and the output stops growing at the
/// cap.
pub open spec fn clean_rec(s: Seq<char>, last_ws: bool, acc: Seq<char>) -> Seq<char>
    decreases s.len(),
{
    if acc.len() >= CLEAN_CAP || s.len() == 0 {
        acc
    } else {
        let c = s[0];
        if is_space(c) {
            if last_ws {
                clean_rec(s.drop_first(), true, acc)
            } else {
                clean_rec(s.drop_first(), true, acc.push(' '))
            }
        } else {
            clean_rec(s.drop_first(), false, acc.push(c))
        }
    }
}

/// The cleaned form of a text: trimmed, inner whitespace runs collapsed
/// to single spaces, capped at `CLEAN_CAP` characters.
pub open spec fn clean_spec(s: Seq<char>) -> Seq<char> {
    clean_rec(trimmed(s), false, Seq::empty())
}

/// Normalize visible text or an ARIA label: trim, collapse whitespace
/// runs to single spaces, and cap the length.
pub fn clean(s: &str) -> (r: Vec<char>)
    ensures
        r@ == clean_spec(s@),
{
    let t = trim_str(s);
    let n = t.unicode_len();
    let mut out: Vec<char> = Vec::new();
    let mut last_ws = false;
    let mut i: usize = 0;
    proof {
        assert(t@.skip(0) =~= t@);
    }
    while i < n && out.len() < CLEAN_CAP
        invariant
            i <= n,
            n == t@.len(),
            t@ == trimmed(s@),
            out@.len() <= CLEAN_CAP,
            clean_rec(t@.skip(i as int), last_ws, out@) == clean_spec(s@),
        decreases n - i,
    {
        proof {
            assert(t@.skip(i as int).drop_first() =~= t@.skip(i + 1));
            assert(t@.skip(i as int)[0] == t@[i as int]);
        }
        let c = t.get_char(i);
        if is_space_char(c) {
            if !last_ws {
                out.push(' ');
            }
            last_ws = true;
        } else {
            out.push(c);
            last_ws = false;
        }
        i += 1;
    }
    proof {
        if i == n {
            assert(t@.skip(i as int) =~= Seq::<char>::empty());
        }
    }
    out
}

/// An opening triple-backtick fence.
pub open spec fn fence_open(t: Seq<char>) -> bool {
    t[0] == '`' && t[1] == '`' && t[2] == '`'
}

/// An opening fence tagged as JSON.
pub open spec fn json_fence_open(t: Seq<char>) -> bool {
    fence_open(t) && t[3] == 'j' && t[4] == 's' && t[5] == 'o' && t[6] == 'n'
}

/// A closing triple-backtick fence.
pub open spec fn fence_close(t: Seq<char>) -> bool {
    t[t.len() - 3] == '`' && t[t.len() - 2] == '`' && t[t.len() - 1] == '`'
}

/// The text with surrounding whitespace and one pair of Markdown code
/// fences (tagged `json` or untagged) removed, if present.
pub open spec fn fences_stripped(s: Seq<char>) -> Seq<char> {
    let t = trimmed(s);
    if t.len() >= 10 && json_fence_open(t) && fence_close(t) {
        trimmed(t.subrange(7, t.len() - 3))
    } else if t.len() >= 6 && fence_open(t) && fence_close(t) {
        trimmed(t.subrange(3, t.len() - 3))
    } else {
        t
    }
}

/// Strip one pair of Markdown code fences (and surrounding whitespace)
/// from a model reply, leaving the JSON payload.
pub fn strip_code_fences<'a>(s: &'a str) -> (r: &'a str)
    ensures
        r@ == fences_stripped(s@),
{
    let t = trim_str(s);
    let n = t.unicode_len();
    if n >= 10 && t.get_char(0) == '`' && t.get_char(1) == '`' && t.get_char(2) == '`'
        && t.get_char(3) == 'j' && t.get_char(4) == 's' && t.get_char(5) == 'o' && t.get_char(6)
        == 'n' && t.get_char(n - 3) == '`' && t.get_char(n - 2) == '`' && t.get_char(n - 1)
        == '`' {
        trim_str(t.substring_char(7, n - 3))
    } else if n >= 6 && t.get_char(0) == '`' && t.get_char(1) == '`' && t.get_char(2) == '`'
        && t.get_char(n - 3) == '`' && t.get_char(n - 2) == '`' && t.get_char(n - 1) == '`' {
        trim_str(t.substring_char(3, n - 3))
    } else {
        t
    }
}

/// Character-wise string equality.
pub fn str_eq(a: &str, b: &str) -> (r: bool)
    ensures
        r == (a@ == b@),
{
    let n = a.unicode_len();
    if n != b.unicode_len() {
        return false;
    }
    let mut i: usize = 0;
    while i < n
        invariant
            i <= n,
            n == a@.len() && n == b@.len(),
            forall|k: int| 0 <= k < i ==> a@[k] == b@[k],
        decreases n - i,
    {
        if a.get_char(i) != b.get_char(i) {
            return false;
        }
        i += 1;
    }
    proof {
        assert(a@ =~= b@);
    }
    true
}

/// Whether the pattern occurs at position `i`.
pub open spec fn match_at(s: Seq<char>, pat: Seq<char>, i: int) -> bool {
    s.subrange(i, i + pat.len()) == pat
}

/// The first occurrence of the pattern at or after `i`.
pub open spec fn find_from(s: Seq<char>, pat: Seq<char>, i: int) -> Option<int>
    decreases s.len() + 1 - i,
{
    if i < 0 || i + pat.len() > s.len() {
        None
    } else if match_at(s, pat, i) {
        Some(i)
    } else {
        find_from(s, pat, i + 1)
    }
}

/// Find the first occurrence of `pat` in `s`, by character position.
pub fn find_sub(s: &str, pat: &str) -> (r: Option<usize>)
    ensures
        match r {
            Some(p) => find_from(s@, pat@, 0) == Some(p as int),
            None => find_from(s@, pat@, 0) is None,
        },
{
    let n = s.unicode_len();
    let m = pat.unicode_len();
    if m > n {
        return None;
    }
    let mut i: usize = 0;
    while i <= n - m
        invariant
            i <= n,
            m <= n,
            n == s@.len(),
            m == pat@.len(),
            find_from(s@, pat@, 0) == find_from(s@, pat@, i as int),
        decreases n - i,
    {
        let mut j: usize = 0;
        while j < m && s.get_char(i + j) == pat.get_char(j)
            invariant
                j <= m,
                i + m <= n,
                n == s@.len(),
                m == pat@.len(),
                forall|k: int| 0 <= k < j ==> s@[i + k] == pat@[k],
            decreases m - j,
        {
            j += 1;
        }
        if j == m {
            proof {
                assert(s@.subrange(i as int, i + m) =~= pat@);
            }
            return Some(i);
        }
        proof {
            assert(s@.subrange(i as int, i + m)[j as int] != pat@[j as int]);
        }
        i += 1;
    }
    None
}


/// A found occurrence lies within the text.
pub proof fn lemma_find_from_in_range(s: Seq<char>, pat: Seq<char>, i: int, p: int)
    requires
        find_from(s, pat, i) == Some(p),
    ensures
        i <= p,
        p + pat.len() <= s.len(),
        match_at(s, pat, p),
    decreases s.len() + 1 - i,
{
    if i < 0 || i + pat.len() > s.len() {
    } else if match_at(s, pat, i) {
    } else {
        lemma_find_from_in_range(s, pat, i + 1, p);
    }
}


/// The characters of a text, as a list.
pub fn chars_of(s: &str) -> (r: Vec<char>)
    ensures
        r@ == s@,
{
    let n = s.unicode_len();
    let mut out: Vec<char> = Vec::new();
    let mut i: usize = 0;
    while i < n
        invariant
            i <= n,
            n == s@.len(),
            out@ == s@.take(i as int),
        decreases n - i,
    {
        out.push(s.get_char(i));
        proof {
            assert(s@.take(i + 1) =~= s@.take(i as int).push(s@[i as int]));
        }
        i += 1;
    }
    proof {
        assert(s@.take(n as int) =~= s@);
    }
    out
}

} // verus!
