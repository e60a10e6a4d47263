//! Deciding how long to wait after a rate-limited call: reset headers
//! first, then a "try again in N.NNNs" phrase in the body, then a
//! linear backoff with a cap.
//!
//! Durations are parsed as plain decimal seconds (digits with at most
//! one point, an optional trailing `s`, surrounding whitespace), scaled
//! to milliseconds with the half-up rounding a floating-point
//! round-to-nearest would give. Durations whose integer part exceeds
//! fifteen digits are rejected as nonsense.

use crate::text::{
    find_from, find_sub, is_space, str_eq, trim_start_idx, trim_str, trimmed,
};
use vstd::prelude::*;

verus! {

/// A decimal digit.
pub open spec fn is_digit(c: char) -> bool {
    48 <= c as u32 <= 57
}

/// Its value.
pub open spec fn digit_val(c: char) -> int {
    (c as u32) - 48
}

/// Executable twin of `is_digit`.
pub fn is_digit_char(c: char) -> (r: bool)
    ensures
        r == is_digit(c),
{
    let v = c as u32;
    48 <= v && v <= 57
}

/// The number a digit string denotes.
pub open spec fn digits_val(s: Seq<char>) -> int
    decreases s.len(),
{
    if s.len() == 0 {
        0
    } else {
        digits_val(s.drop_last()) * 10 + digit_val(s.last())
    }
}

/// The string with every trailing `s` removed.
pub open spec fn strip_trailing_s(s: Seq<char>) -> Seq<char>
    decreases s.len(),
{
    if s.len() > 0 && s.last() == 's' {
        strip_trailing_s(s.drop_last())
    } else {
        s
    }
}

/// The position of the first decimal point, or the length when none.
pub open spec fn dot_pos(s: Seq<char>) -> int {
    match find_from(s, seq!['.'], 0) {
        Some(p) => p,
        None => s.len() as int,
    }
}

/// A plain decimal number: digits with at most one point and at least
/// one digit.
pub open spec fn valid_number(s: Seq<char>) -> bool {
    &&& s.len() > 0
    &&& forall|i: int| 0 <= i < s.len() ==> is_digit(#[trigger] s[i]) || s[i] == '.'
    &&& forall|i: int, j: int| 0 <= i < j < s.len() && s[i] == '.' ==> s[j] != '.'
    &&& exists|i: int| 0 <= i < s.len() && is_digit(#[trigger] s[i])
}

/// The largest integer-seconds value accepted.
pub open spec fn max_whole_seconds() -> int {
    999_999_999_999_999
}

/// The fractional digits scaled to milliseconds, rounding half up on
/// the fourth digit.
pub open spec fn frac_ms(fp: Seq<char>) -> int {
    let d0 = if fp.len() > 0 {
        digit_val(fp[0])
    } else {
        0
    };
    let d1 = if fp.len() > 1 {
        digit_val(fp[1])
    } else {
        0
    };
    let d2 = if fp.len() > 2 {
        digit_val(fp[2])
    } else {
        0
    };
    let carry: int = if fp.len() > 3 && digit_val(fp[3]) >= 5 {
        1
    } else {
        0
    };
    d0 * 100 + d1 * 10 + d2 + carry
}

/// What a duration string denotes in milliseconds: trim, drop trailing
/// `s` markers, trim again, then read `digits[.digits]`; absent or
/// malformed or absurdly large values give nothing.
pub open spec fn spec_seconds_to_ms(s: Seq<char>) -> Option<int> {
    let body = trimmed(strip_trailing_s(trimmed(s)));
    if valid_number(body) {
        let p = dot_pos(body);
        let ip = body.subrange(0, p);
        let fp = if p < body.len() {
            body.subrange(p + 1, body.len() as int)
        } else {
            Seq::empty()
        };
        if digits_val(ip) <= max_whole_seconds() {
            Some(digits_val(ip) * 1000 + frac_ms(fp))
        } else {
            None
        }
    } else {
        None
    }
}

/// A run of trailing `s` characters pins the strip boundary down.
proof fn lemma_strip_s_at(s: Seq<char>, e: int)
    requires
        0 <= e <= s.len(),
        forall|k: int| e <= k < s.len() ==> s[k] == 's',
        e > 0 ==> s[e - 1] != 's',
    ensures
        strip_trailing_s(s) == s.take(e),
    decreases s.len() - e,
{
    if e == s.len() {
        assert(s.take(e) =~= s);
    } else {
        assert(forall|k: int| e <= k < s.drop_last().len() ==> s.drop_last()[k] == 's');
        lemma_strip_s_at(s.drop_last(), e);
        assert(s.drop_last().take(e) =~= s.take(e));
    }
}

/// Digit strings denote non-negative numbers.
proof fn lemma_digits_val_nonneg(s: Seq<char>)
    requires
        forall|i: int| 0 <= i < s.len() ==> is_digit(#[trigger] s[i]),
    ensures
        digits_val(s) >= 0,
    decreases s.len(),
{
    if s.len() > 0 {
        lemma_digits_val_nonneg(s.drop_last());
    }
}

/// Reading one more digit multiplies by ten and adds it.
pub proof fn lemma_digits_val_step(s: Seq<char>, i: int)
    requires
        0 <= i < s.len(),
    ensures
        digits_val(s.take(i + 1)) == digits_val(s.take(i)) * 10 + digit_val(s[i]),
{
    assert(s.take(i + 1).drop_last() =~= s.take(i));
    assert(s.take(i + 1).last() == s[i]);
}

/// A digit string is at least as large as any of its prefixes.
pub proof fn lemma_digits_val_prefix_le(s: Seq<char>, i: int)
    requires
        forall|k: int| 0 <= k < s.len() ==> is_digit(#[trigger] s[k]),
        0 <= i <= s.len(),
    ensures
        digits_val(s.take(i)) <= digits_val(s),
    decreases s.len() - i,
{
    if i == s.len() {
        assert(s.take(i) =~= s);
    } else {
        lemma_digits_val_step(s, i);
        assert(forall|k: int| 0 <= k < s.take(i).len() ==> is_digit(#[trigger] s.take(i)[k]));
        lemma_digits_val_nonneg(s.take(i));
        lemma_digits_val_prefix_le(s, i + 1);
    }
}

/// A prefix free of points, then a point or the end, pins the first
/// point's position down.
proof fn lemma_dot_pos_at(s: Seq<char>, p: int)
    requires
        0 <= p <= s.len(),
        forall|k: int| 0 <= k < p ==> s[k] != '.',
        p < s.len() ==> s[p] == '.',
    ensures
        dot_pos(s) == p,
{
    lemma_find_char_from(s, 0, p);
    if p < s.len() {
        assert(s.subrange(p, p + 1) =~= seq!['.']);
    }
}

/// Scanning past non-matching characters does not change what a
/// single-character search finds.
proof fn lemma_find_char_from(s: Seq<char>, i: int, p: int)
    requires
        0 <= i <= p <= s.len(),
        forall|k: int| i <= k < p ==> s[k] != '.',
        p < s.len() ==> s[p] == '.',
    ensures
        find_from(s, seq!['.'], i) == if p < s.len() {
            Some(p)
        } else {
            None::<int>
        },
    decreases p - i,
{
    if i == p {
        if p < s.len() {
            assert(s.subrange(p, p + 1) =~= seq!['.']);
        }
    } else {
        assert(s.subrange(i, i + 1)[0] == s[i]);
        assert(s.subrange(i, i + 1) != seq!['.']) by {
            if s.subrange(i, i + 1) == seq!['.'] {
                assert(s.subrange(i, i + 1)[0] == '.');
            }
        }
        lemma_find_char_from(s, i + 1, p);
    }
}

/// Parse a duration like `1.686s` or `2` into milliseconds.
pub fn parse_seconds_str_to_ms(s: &str) -> (r: Option<u64>)
    ensures
        match r {
            Some(v) => spec_seconds_to_ms(s@) == Some(v as int),
            None => spec_seconds_to_ms(s@) is None,
        },
{
    let t1 = trim_str(s);
    let n1 = t1.unicode_len();
    let mut e: usize = n1;
    while e > 0 && t1.get_char(e - 1) == 's'
        invariant
            e <= n1,
            n1 == t1@.len(),
            forall|k: int| e <= k < n1 ==> t1@[k] == 's',
        decreases e,
    {
        e -= 1;
    }
    proof {
        lemma_strip_s_at(t1@, e as int);
    }
    let t2 = t1.substring_char(0, e);
    proof {
        assert(t2@ =~= t1@.take(e as int));
    }
    let t = trim_str(t2);
    proof {
        assert(t2@ == strip_trailing_s(trimmed(s@)));
        assert(t@ == trimmed(strip_trailing_s(trimmed(s@))));
    }
    let n = t.unicode_len();
    if n == 0 {
        return None;
    }
    // one scan: find the first point, reject bad characters, count digits
    let mut dotp: usize = n;
    let mut dots: usize = 0;
    let mut digits: usize = 0;
    let mut i: usize = 0;
    while i < n
        invariant
            i <= n,
            n == t@.len(),
            t@ == trimmed(strip_trailing_s(trimmed(s@))),
            dots <= i,
            digits <= i,
            dots == 0 ==> dotp == n && (forall|k: int| 0 <= k < i ==> t@[k] != '.'),
            dots > 0 ==> dotp < i && t@[dotp as int] == '.' && (forall|k: int|
                0 <= k < dotp ==> t@[k] != '.'),
            dots == 1 ==> (forall|k: int| dotp < k < i ==> t@[k] != '.'),
            dots >= 2 ==> (exists|k: int| dotp < k < i && t@[k] == '.'),
            forall|k: int| 0 <= k < i ==> is_digit(#[trigger] t@[k]) || t@[k] == '.',
            (exists|k: int| 0 <= k < i && is_digit(#[trigger] t@[k])) <==> digits > 0,
        decreases n - i,
    {
        let c = t.get_char(i);
        if c == '.' {
            if dots == 0 {
                dotp = i;
            }
            dots += 1;
        } else if is_digit_char(c) {
            digits += 1;
        } else {
            proof {
                assert(!(is_digit(t@[i as int]) || t@[i as int] == '.'));
                assert(!valid_number(t@));
            }
            return None;
        }
        i += 1;
    }
    if digits == 0 {
        proof {
            assert(!valid_number(t@));
        }
        return None;
    }
    if dots > 1 {
        proof {
            let j = choose|k: int| dotp < k < n && t@[k] == '.';
            assert(t@[dotp as int] == '.' && t@[j] == '.');
            assert(!valid_number(t@));
        }
        return None;
    }
    proof {
        lemma_dot_pos_at(t@, dotp as int);
        assert(valid_number(t@));
    }
    // integer part
    let mut val: u64 = 0;
    let mut j: usize = 0;
    while j < dotp
        invariant
            j <= dotp <= n,
            n == t@.len(),
            t@ == trimmed(strip_trailing_s(trimmed(s@))),
            valid_number(t@),
            dot_pos(t@) == dotp,
            forall|k: int| 0 <= k < dotp ==> is_digit(#[trigger] t@[k]),
            val == digits_val(t@.subrange(0, dotp as int).take(j as int)),
            val <= 999_999_999_999_999,
        decreases dotp - j,
    {
        proof {
            lemma_digits_val_step(t@.subrange(0, dotp as int), j as int);
        }
        let c = t.get_char(j);
        proof {
            assert(is_digit(t@[j as int]));
        }
        let d = (c as u32) as u64 - 48;
        if val > 99_999_999_999_999 {
            // the integer part exceeds fifteen digits of value
            proof {
                let ip = t@.subrange(0, dotp as int);
                assert(ip[j as int] == t@[j as int]);
                assert(digits_val(ip.take(j + 1)) == val * 10 + d);
                assert(forall|k: int| 0 <= k < ip.len() ==> is_digit(#[trigger] ip[k]));
                lemma_digits_val_prefix_le(ip, j + 1);
                assert(digits_val(ip) > max_whole_seconds());
            }
            return None;
        }
        val = val * 10 + d;
        j += 1;
    }
    proof {
        assert(t@.subrange(0, dotp as int).take(dotp as int) =~= t@.subrange(0, dotp as int));
    }
    // fractional part: up to three digits and a rounding digit
    let mut frac: u64 = 0;
    if dotp < n {
        let flen = n - dotp - 1;
        proof {
            assert(forall|k: int| dotp < k < n ==> is_digit(#[trigger] t@[k]));
        }
        let f0: u64 = if flen > 0 {
            (t.get_char(dotp + 1) as u32) as u64 - 48
        } else {
            0
        };
        let f1: u64 = if flen > 1 {
            (t.get_char(dotp + 2) as u32) as u64 - 48
        } else {
            0
        };
        let f2: u64 = if flen > 2 {
            (t.get_char(dotp + 3) as u32) as u64 - 48
        } else {
            0
        };
        let carry: u64 = if flen > 3 && (t.get_char(dotp + 4) as u32) as u64 - 48 >= 5 {
            1
        } else {
            0
        };
        frac = f0 * 100 + f1 * 10 + f2 + carry;
        proof {
            let fp = t@.subrange(dotp + 1, n as int);
            assert(fp.len() > 0 ==> fp[0] == t@[dotp + 1]);
            assert(fp.len() > 1 ==> fp[1] == t@[dotp + 2]);
            assert(fp.len() > 2 ==> fp[2] == t@[dotp + 3]);
            assert(fp.len() > 3 ==> fp[3] == t@[dotp + 4]);
            assert(frac == frac_ms(fp));
        }
    } else {
        proof {
            assert(frac_ms(Seq::<char>::empty()) == 0);
        }
    }
    Some(val * 1000 + frac)
}


/// The value of the first header with the given (exact) name.
pub open spec fn header_lookup(hs: Seq<(String, String)>, key: Seq<char>) -> Option<Seq<char>>
    decreases hs.len(),
{
    if hs.len() == 0 {
        None
    } else if hs[0].0@ == key {
        Some(hs[0].1@)
    } else {
        header_lookup(hs.drop_first(), key)
    }
}

/// The wait a single header contributes: nothing when the header is
/// absent or does not parse as a duration.
pub open spec fn try_header_key(hs: Seq<(String, String)>, key: Seq<char>) -> Option<int> {
    match header_lookup(hs, key) {
        None => None,
        Some(v) => spec_seconds_to_ms(v),
    }
}

/// The wait the rate-limit headers ask for: the reset-requests header
/// first, then reset-tokens, then retry-after; a present but unreadable
/// header falls through to the next name.
pub open spec fn spec_wait_from_headers(hs: Seq<(String, String)>) -> Option<int> {
    if try_header_key(hs, "x-ratelimit-reset-requests"@) is Some {
        try_header_key(hs, "x-ratelimit-reset-requests"@)
    } else if try_header_key(hs, "x-ratelimit-reset-tokens"@) is Some {
        try_header_key(hs, "x-ratelimit-reset-tokens"@)
    } else {
        try_header_key(hs, "retry-after"@)
    }
}

/// Find the first header with the given name.
fn lookup_header<'a>(headers: &'a Vec<(String, String)>, key: &str) -> (r: Option<&'a String>)
    ensures
        match r {
            Some(v) => header_lookup(headers@, key@) == Some(v@),
            None => header_lookup(headers@, key@) is None,
        },
{
    let mut i: usize = 0;
    proof {
        assert(headers@.skip(0) =~= headers@);
    }
    while i < headers.len()
        invariant
            i <= headers@.len(),
            header_lookup(headers@, key@) == header_lookup(headers@.skip(i as int), key@),
        decreases headers@.len() - i,
    {
        proof {
            assert(headers@.skip(i as int)[0] == headers@[i as int]);
            assert(headers@.skip(i as int).drop_first() =~= headers@.skip(i + 1));
        }
        if str_eq(headers[i].0.as_str(), key) {
            return Some(&headers[i].1);
        }
        i += 1;
    }
    proof {
        assert(headers@.skip(headers@.len() as int).len() == 0);
    }
    None
}

/// The wait one header name contributes.
fn try_header(headers: &Vec<(String, String)>, key: &str) -> (r: Option<u64>)
    ensures
        match r {
            Some(v) => try_header_key(headers@, key@) == Some(v as int),
            None => try_header_key(headers@, key@) is None,
        },
{
    match lookup_header(headers, key) {
        Some(v) => parse_seconds_str_to_ms(v.as_str()),
        None => None,
    }
}

/// The wait the rate-limit headers ask for, in milliseconds. Headers
/// are given as (name, value) pairs with the names in lower case, as
/// HTTP/2 and common clients normalize them.
pub fn extract_wait_ms_from_headers(headers: &Vec<(String, String)>) -> (r: Option<u64>)
    ensures
        match r {
            Some(v) => spec_wait_from_headers(headers@) == Some(v as int),
            None => spec_wait_from_headers(headers@) is None,
        },
{
    match try_header(headers, "x-ratelimit-reset-requests") {
        Some(v) => Some(v),
        None => match try_header(headers, "x-ratelimit-reset-tokens") {
            Some(v) => Some(v),
            None => try_header(headers, "retry-after"),
        },
    }
}

/// The number of leading duration characters (digits or a point).
pub open spec fn duration_prefix_len(s: Seq<char>) -> int
    decreases s.len(),
{
    if s.len() > 0 && (is_digit(s[0]) || s[0] == '.') {
        1 + duration_prefix_len(s.drop_first())
    } else {
        0
    }
}

/// A prefix of duration characters followed by something else (or the
/// end) pins the prefix length down.
proof fn lemma_duration_prefix_at(s: Seq<char>, m: int)
    requires
        0 <= m <= s.len(),
        forall|k: int| 0 <= k < m ==> is_digit(#[trigger] s[k]) || s[k] == '.',
        m < s.len() ==> !(is_digit(s[m]) || s[m] == '.'),
    ensures
        duration_prefix_len(s) == m,
    decreases m,
{
    if m > 0 {
        lemma_duration_prefix_at(s.drop_first(), m - 1);
    }
}

/// The wait a response body asks for: the number after the phrase
/// "Please try again in", if the phrase and a number are there.
pub open spec fn spec_wait_from_body(b: Seq<char>) -> Option<int> {
    match find_from(b, "Please try again in"@, 0) {
        None => None,
        Some(p) => {
            let tail = b.skip(p + "Please try again in"@.len());
            let t2 = tail.skip(trim_start_idx(tail));
            let m = duration_prefix_len(t2);
            if m == 0 {
                None
            } else {
                spec_seconds_to_ms(t2.take(m))
            }
        },
    }
}

/// Read the wait a rate-limit error body asks for, in milliseconds.
pub fn extract_wait_ms_from_body(body: &str) -> (r: Option<u64>)
    ensures
        match r {
            Some(v) => spec_wait_from_body(body@) == Some(v as int),
            None => spec_wait_from_body(body@) is None,
        },
{
    let pat = "Please try again in";
    let found = find_sub(body, pat);
    match found {
        None => None,
        Some(p) => {
            let plen = pat.unicode_len();
            let n = body.unicode_len();
            proof {
                crate::text::lemma_find_from_in_range(body@, pat@, 0, p as int);
            }
            let tail = body.substring_char(p + plen, n);
            proof {
                assert(tail@ =~= body@.skip(p + pat@.len()));
            }
            let tn = tail.unicode_len();
            let mut st: usize = 0;
            while st < tn && crate::text::is_space_char(tail.get_char(st))
                invariant
                    st <= tn,
                    tn == tail@.len(),
                    forall|k: int| 0 <= k < st ==> is_space(#[trigger] tail@[k]),
                decreases tn - st,
            {
                st += 1;
            }
            proof {
                crate::text::lemma_trim_start_at(tail@, st as int);
            }
            let mut m: usize = st;
            while m < tn && (is_digit_char(tail.get_char(m)) || tail.get_char(m) == '.')
                invariant
                    st <= m <= tn,
                    tn == tail@.len(),
                    forall|k: int|
                        st <= k < m ==> is_digit(#[trigger] tail@[k]) || tail@[k] == '.',
                decreases tn - m,
            {
                m += 1;
            }
            proof {
                let t2 = tail@.skip(st as int);
                assert(forall|k: int|
                    0 <= k < m - st ==> is_digit(#[trigger] t2[k]) || t2[k] == '.');
                lemma_duration_prefix_at(t2, m - st);
            }
            if m == st {
                return None;
            }
            let num = tail.substring_char(st, m);
            proof {
                assert(num@ =~= tail@.skip(st as int).take(m - st));
            }
            parse_seconds_str_to_ms(num)
        },
    }
}

/// How long to sleep after a rate-limited call: what the headers ask
/// for, else what the body asks for, else a linear backoff of 600 ms
/// per attempt, capped at 8 seconds.
pub open spec fn spec_rate_limit_sleep_ms(
    hs: Seq<(String, String)>,
    b: Seq<char>,
    attempt: int,
) -> int {
    if spec_wait_from_headers(hs) is Some {
        spec_wait_from_headers(hs).unwrap()
    } else if spec_wait_from_body(b) is Some {
        spec_wait_from_body(b).unwrap()
    } else {
        let raw = 600 * (attempt + 1);
        if raw > 8000 {
            8000
        } else {
            raw
        }
    }
}

/// Decide how long to sleep for a rate-limited call, using headers
/// first, then the body, then a capped fallback backoff.
pub fn compute_rate_limit_sleep_ms(
    headers: &Vec<(String, String)>,
    body: &str,
    attempt: usize,
) -> (r: u64)
    ensures
        r as int == spec_rate_limit_sleep_ms(headers@, body@, attempt as int),
{
    match extract_wait_ms_from_headers(headers) {
        Some(ms) => ms,
        None => match extract_wait_ms_from_body(body) {
            Some(ms) => ms,
            None => {
                if attempt >= 13 {
                    8000
                } else {
                    let raw = 600 * (attempt as u64 + 1);
                    if raw > 8000 {
                        8000
                    } else {
                        raw
                    }
                }
            },
        },
    }
}

/// A linear retry backoff: `base` milliseconds per attempt already
/// made, saturating at the timer type's maximum.
pub open spec fn spec_backoff_ms(base: int, attempt: int) -> int {
    if base * (attempt + 1) > u64::MAX {
        u64::MAX as int
    } else {
        base * (attempt + 1)
    }
}

/// The linear backoff before the next retry of a failed call.
pub fn retry_backoff_ms(base: u64, attempt: usize) -> (r: u64)
    ensures
        r as int == spec_backoff_ms(base as int, attempt as int),
{
    if base == 0 {
        return 0;
    }
    if attempt as u64 == u64::MAX {
        proof {
            assert(base * (u64::MAX as int + 1) > u64::MAX) by (nonlinear_arith)
                requires
                    base >= 1,
            ;
        }
        return u64::MAX;
    }
    let a1 = attempt as u64 + 1;
    let q = u64::MAX / a1;
    if base > q {
        proof {
            vstd::arithmetic::div_mod::lemma_fundamental_div_mod(u64::MAX as int, a1 as int);
            assert(q * a1 <= u64::MAX < (q + 1) * a1) by (nonlinear_arith)
                requires
                    u64::MAX as int == ((u64::MAX as int) / (a1 as int)) * a1 + (u64::MAX as int) % (a1 as int),
                    0 <= (u64::MAX as int) % (a1 as int) < a1,
                    q == (u64::MAX as int) / (a1 as int),
                    a1 >= 1,
            ;
            assert(base * a1 > u64::MAX) by (nonlinear_arith)
                requires
                    base >= q + 1,
                    a1 >= 1,
                    (q + 1) * a1 > u64::MAX,
            ;
        }
        u64::MAX
    } else {
        proof {
            vstd::arithmetic::div_mod::lemma_fundamental_div_mod(u64::MAX as int, a1 as int);
            assert(q * a1 <= u64::MAX) by (nonlinear_arith)
                requires
                    u64::MAX as int == ((u64::MAX as int) / (a1 as int)) * a1 + (u64::MAX as int) % (a1 as int),
                    0 <= (u64::MAX as int) % (a1 as int) < a1,
                    q == (u64::MAX as int) / (a1 as int),
                    a1 >= 1,
            ;
            assert(base * a1 <= u64::MAX) by (nonlinear_arith)
                requires
                    1 <= base <= q,
                    a1 >= 1,
                    q * a1 <= u64::MAX,
            ;
        }
        base * a1
    }
}

} // verus!
