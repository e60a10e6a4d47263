//! Combining several noisy click-point samples into one robust point.
//!
//! Per axis: sort the samples; with fewer than four, take the plain
//! integer mean (truncating toward zero); otherwise drop samples outside
//! the Tukey fences `[Q1 - 1.5 IQR, Q3 + 1.5 IQR]` (quartiles taken at
//! indices `n/4` and `3n/4` of the sorted list, no interpolation) and
//! take the mean of the survivors, falling back to the unfiltered mean
//! when nothing survives. The double-click flag is the majority vote
//! over all samples, ties resolving to a double click.

use vstd::prelude::*;

verus! {

/// A click target in screenshot/CSS pixel space, as reported by the
/// vision model.
#[derive(Debug, Clone, Copy, PartialEq, Eq, Structural)]
pub struct ViewportPoint {
    pub x: i32,
    pub y: i32,
    pub double: bool,
}

/// Sum of a sequence of samples, as an unbounded integer.
pub open spec fn seq_sum(s: Seq<i64>) -> int
    decreases s.len(),
{
    if s.len() == 0 {
        0
    } else {
        seq_sum(s.drop_last()) + s.last()
    }
}

/// Integer division truncating toward zero, as the `/` of the samples'
/// machine type does.
pub open spec fn trunc_div(a: int, b: int) -> int {
    if a >= 0 {
        a / b
    } else {
        -((-a) / b)
    }
}

/// The plain integer mean of a non-empty sequence.
pub open spec fn plain_mean(s: Seq<i64>) -> int {
    trunc_div(seq_sum(s), s.len() as int)
}

/// Non-decreasing order.
pub open spec fn sorted64(s: Seq<i64>) -> bool {
    forall|i: int, j: int| 0 <= i <= j < s.len() ==> s[i] <= s[j]
}

/// Insert a sample into a sorted sequence, before the first element
/// it is less than or equal to.
pub open spec fn insert_sorted(s: Seq<i64>, v: i64) -> Seq<i64>
    decreases s.len(),
{
    if s.len() == 0 {
        seq![v]
    } else if v <= s[0] {
        seq![v] + s
    } else {
        seq![s[0]] + insert_sorted(s.drop_first(), v)
    }
}

/// Insertion sort of a sequence of samples.
pub open spec fn sort64(s: Seq<i64>) -> Seq<i64>
    decreases s.len(),
{
    if s.len() == 0 {
        Seq::empty()
    } else {
        insert_sorted(sort64(s.drop_last()), s.last())
    }
}

/// The subsequence of samples lying within `[lo, hi]`, in order.
pub open spec fn bounds_filter(s: Seq<i64>, lo: int, hi: int) -> Seq<i64>
    decreases s.len(),
{
    if s.len() == 0 {
        Seq::empty()
    } else if lo <= s.last() <= hi {
        bounds_filter(s.drop_last(), lo, hi).push(s.last())
    } else {
        bounds_filter(s.drop_last(), lo, hi)
    }
}

/// The Tukey fences of a sorted sample list of length at least 4:
/// `[Q1 - 1.5 IQR, Q3 + 1.5 IQR]`, the half scaled down truncating.
pub open spec fn tukey_fences(v: Seq<i64>) -> (int, int) {
    let n = v.len() as int;
    let q1 = v[n / 4] as int;
    let q3 = v[3 * n / 4] as int;
    let iqr = q3 - q1;
    (q1 - trunc_div(3 * iqr, 2), q3 + trunc_div(3 * iqr, 2))
}

/// The outlier-trimmed mean of one axis: plain mean below four samples,
/// otherwise the mean of the samples within the Tukey fences, or of all
/// samples when none survives. Empty input yields 0.
pub open spec fn robust_mean(s: Seq<i64>) -> int {
    let n = s.len() as int;
    if n == 0 {
        0
    } else {
        let v = sort64(s);
        if n < 4 {
            plain_mean(v)
        } else {
            let (lo, hi) = tukey_fences(v);
            let f = bounds_filter(v, lo, hi);
            if f.len() == 0 {
                plain_mean(v)
            } else {
                plain_mean(f)
            }
        }
    }
}

/// How many samples ask for a double click.
pub open spec fn count_double(s: Seq<ViewportPoint>) -> int
    decreases s.len(),
{
    if s.len() == 0 {
        0int
    } else {
        count_double(s.drop_last()) + if s.last().double {
            1int
        } else {
            0int
        }
    }
}

/// Majority vote on the double flag; a tie counts as a double click.
pub open spec fn majority_double(s: Seq<ViewportPoint>) -> bool {
    2 * count_double(s) >= s.len()
}

/// The x coordinates of a sample list, widened to the working type.
pub open spec fn xs_of(s: Seq<ViewportPoint>) -> Seq<i64> {
    s.map_values(|p: ViewportPoint| p.x as i64)
}

/// The y coordinates of a sample list, widened to the working type.
pub open spec fn ys_of(s: Seq<ViewportPoint>) -> Seq<i64> {
    s.map_values(|p: ViewportPoint| p.y as i64)
}

/// Inserting into a sorted sequence keeps it sorted, adds exactly the
/// new sample, and keeps every sample where it was (as a multiset).
pub proof fn lemma_insert_sorted_props(s: Seq<i64>, v: i64)
    requires
        sorted64(s),
    ensures
        sorted64(insert_sorted(s, v)),
        insert_sorted(s, v).to_multiset() == s.to_multiset().insert(v),
        insert_sorted(s, v).len() == s.len() + 1,
    decreases s.len(),
{
    broadcast use vstd::seq_lib::group_to_multiset_ensures;

    if s.len() == 0 {
        assert(insert_sorted(s, v) =~= seq![v]);
        assert(seq![v].to_multiset() =~= s.to_multiset().insert(v)) by {
            assert(seq![v] =~= s.push(v));
        }
    } else if v <= s[0] {
        assert(insert_sorted(s, v) =~= seq![v] + s);
        lemma_cons_multiset(v, s);
    } else {
        let rest = insert_sorted(s.drop_first(), v);
        assert(forall|i: int, j: int|
            0 <= i <= j < s.drop_first().len() ==> s.drop_first()[i] <= s.drop_first()[j]);
        lemma_insert_sorted_props(s.drop_first(), v);
        assert(insert_sorted(s, v) =~= seq![s[0]] + rest);
        // every element of rest is an element of drop_first or v, so >= s[0]
        assert forall|i: int, j: int|
            0 <= i <= j < (seq![s[0]] + rest).len() implies (seq![s[0]] + rest)[i] <= (seq![s[0]]
            + rest)[j] by {
            if i == 0 && j > 0 {
                let e = rest[j - 1];
                assert(rest.to_multiset().contains(e));
                assert(s.drop_first().to_multiset().insert(v).contains(e));
                if e == v {
                    assert(s[0] <= e);
                } else {
                    assert(s.drop_first().to_multiset().contains(e));
                    assert(s.drop_first().contains(e));
                    let k = choose|k: int|
                        0 <= k < s.drop_first().len() && s.drop_first()[k] == e;
                    assert(s[k + 1] == e);
                    assert(s[0] <= s[k + 1]);
                }
            }
        }
        lemma_cons_multiset(s[0], rest);
        lemma_cons_multiset(s[0], s.drop_first());
        assert(seq![s[0]] + s.drop_first() =~= s);
        assert((seq![s[0]] + rest).to_multiset() =~= s.to_multiset().insert(v)) by {
            assert(rest.to_multiset() == s.drop_first().to_multiset().insert(v));
        }
    }
}

/// Prepending an element inserts it into the multiset.
proof fn lemma_cons_multiset(v: i64, s: Seq<i64>)
    ensures
        (seq![v] + s).to_multiset() == s.to_multiset().insert(v),
    decreases s.len(),
{
    broadcast use vstd::seq_lib::group_to_multiset_ensures;

    if s.len() == 0 {
        assert(seq![v] + s =~= Seq::empty().push(v));
    } else {
        lemma_cons_multiset(v, s.drop_last());
        assert((seq![v] + s).drop_last() =~= seq![v] + s.drop_last());
        assert((seq![v] + s).to_multiset() =~= (seq![v] + s).drop_last().to_multiset().insert(
            s.last(),
        )) by {
            assert(seq![v] + s =~= (seq![v] + s).drop_last().push(s.last()));
        }
        assert(s.to_multiset() =~= s.drop_last().to_multiset().insert(s.last())) by {
            assert(s =~= s.drop_last().push(s.last()));
        }
        assert(s.drop_last().to_multiset().insert(v).insert(s.last())
            =~= s.drop_last().to_multiset().insert(s.last()).insert(v));
    }
}

/// Sorting yields a sorted rearrangement: same samples, same count.
pub proof fn lemma_sort64_props(s: Seq<i64>)
    ensures
        sorted64(sort64(s)),
        sort64(s).to_multiset() == s.to_multiset(),
        sort64(s).len() == s.len(),
    decreases s.len(),
{
    broadcast use vstd::seq_lib::group_to_multiset_ensures;

    if s.len() == 0 {
    } else {
        lemma_sort64_props(s.drop_last());
        lemma_insert_sorted_props(sort64(s.drop_last()), s.last());
        assert(s.to_multiset() =~= s.drop_last().to_multiset().insert(s.last())) by {
            assert(s =~= s.drop_last().push(s.last()));
        }
    }
}

/// The sum of a list of samples depends only on which samples it holds,
/// not on their order.
pub proof fn lemma_sum_permutation(a: Seq<i64>, b: Seq<i64>)
    requires
        a.to_multiset() == b.to_multiset(),
    ensures
        seq_sum(a) == seq_sum(b),
    decreases a.len(),
{
    broadcast use vstd::seq_lib::group_to_multiset_ensures;

    if a.len() == 0 {
        assert(b.len() == 0) by {
            assert(a.to_multiset().len() == 0);
        }
    } else {
        let v = a.last();
        assert(a.to_multiset().contains(v)) by {
            assert(a =~= a.drop_last().push(v));
            assert(a.to_multiset() =~= a.drop_last().to_multiset().insert(v));
        }
        assert(b.to_multiset().contains(v));
        assert(b.contains(v));
        let k = choose|k: int| 0 <= k < b.len() && b[k] == v;
        let b2 = b.remove(k);
        lemma_remove_last_sum(b, k);
        assert(a.drop_last().to_multiset() == b2.to_multiset()) by {
            assert(a =~= a.drop_last().push(v));
            assert(a.to_multiset() =~= a.drop_last().to_multiset().insert(v));
            b.to_multiset_ensures();
            assert(b.to_multiset().remove(v) =~= a.drop_last().to_multiset());
        }
        lemma_sum_permutation(a.drop_last(), b2);
    }
}

/// Removing one sample subtracts exactly its value from the sum.
proof fn lemma_remove_last_sum(b: Seq<i64>, k: int)
    requires
        0 <= k < b.len(),
    ensures
        seq_sum(b) == seq_sum(b.remove(k)) + b[k],
    decreases b.len(),
{
    if k == b.len() - 1 {
        assert(b.remove(k) =~= b.drop_last());
    } else {
        assert(b.remove(k).drop_last() =~= b.drop_last().remove(k));
        assert(b.remove(k).last() == b.last());
        lemma_remove_last_sum(b.drop_last(), k);
    }
}

/// Every sample of a sequence lies within the bounds that hold of a
/// rearrangement of it.
proof fn lemma_multiset_range(a: Seq<i64>, b: Seq<i64>, lo: int, hi: int)
    requires
        a.to_multiset() == b.to_multiset(),
        forall|i: int| 0 <= i < a.len() ==> lo <= #[trigger] a[i] <= hi,
    ensures
        forall|i: int| 0 <= i < b.len() ==> lo <= #[trigger] b[i] <= hi,
{
    broadcast use vstd::seq_lib::group_to_multiset_ensures;

    assert forall|i: int| 0 <= i < b.len() implies lo <= #[trigger] b[i] <= hi by {
        assert(b.to_multiset().contains(b[i]));
        assert(a.to_multiset().contains(b[i]));
        assert(a.contains(b[i]));
    }
}

/// Sums of bounded samples are bounded linearly in the length.
proof fn lemma_sum_bounds(s: Seq<i64>, lo: int, hi: int)
    requires
        forall|i: int| 0 <= i < s.len() ==> lo <= #[trigger] s[i] <= hi,
    ensures
        s.len() * lo <= seq_sum(s) <= s.len() * hi,
    decreases s.len(),
{
    if s.len() == 0 {
    } else {
        lemma_sum_bounds(s.drop_last(), lo, hi);
        assert((s.len() - 1) * lo + lo == s.len() * lo && (s.len() - 1) * hi + hi == s.len() * hi)
            by (nonlinear_arith);
    }
}

/// A truncating mean of samples within `[lo, hi]` lies within `[lo, hi]`.
proof fn lemma_trunc_mean_bounds(a: int, n: int, lo: int, hi: int)
    requires
        n >= 1,
        n * lo <= a <= n * hi,
    ensures
        lo <= trunc_div(a, n) <= hi,
{
    if a >= 0 {
        vstd::arithmetic::div_mod::lemma_div_is_ordered(a, n * hi, n);
        vstd::arithmetic::div_mod::lemma_div_multiples_vanish(hi, n);
        assert(n * hi == hi * n) by (nonlinear_arith);
        vstd::arithmetic::div_mod::lemma_div_pos_is_pos(a, n);
        if lo > 0 {
            vstd::arithmetic::div_mod::lemma_div_is_ordered(n * lo, a, n);
            vstd::arithmetic::div_mod::lemma_div_multiples_vanish(lo, n);
        }
    } else {
        assert(trunc_div(a, n) == -((-a) / n));
        vstd::arithmetic::div_mod::lemma_div_pos_is_pos(-a, n);
        assert(-a <= n * (-lo)) by (nonlinear_arith)
            requires
                n * lo <= a,
        ;
        vstd::arithmetic::div_mod::lemma_div_is_ordered(-a, n * (-lo), n);
        vstd::arithmetic::div_mod::lemma_div_multiples_vanish(-lo, n);
        if hi < 0 {
            assert(n * (-hi) <= -a) by (nonlinear_arith)
                requires
                    a <= n * hi,
            ;
            vstd::arithmetic::div_mod::lemma_div_is_ordered(n * (-hi), -a, n);
            vstd::arithmetic::div_mod::lemma_div_multiples_vanish(-hi, n);
        }
    }
}

/// Inserting before the first position whose sample is at least `v`
/// splits the sequence there.
proof fn lemma_insert_at(s: Seq<i64>, v: i64, p: int)
    requires
        0 <= p <= s.len(),
        forall|k: int| 0 <= k < p ==> s[k] < v,
        p < s.len() ==> v <= s[p],
    ensures
        insert_sorted(s, v) =~= s.subrange(0, p).push(v) + s.subrange(p, s.len() as int),
    decreases p,
{
    if p == 0 {
        if s.len() == 0 {
            assert(insert_sorted(s, v) =~= s.subrange(0, 0).push(v) + s.subrange(0, 0));
        } else {
            assert(insert_sorted(s, v) == seq![v] + s);
            assert(seq![v] + s =~= s.subrange(0, 0).push(v) + s.subrange(0, s.len() as int));
        }
    } else {
        let d = s.drop_first();
        assert(s[0] < v);
        lemma_insert_at(d, v, p - 1);
        assert(insert_sorted(s, v) == seq![s[0]] + insert_sorted(d, v));
        assert(seq![s[0]] + (d.subrange(0, p - 1).push(v) + d.subrange(p - 1, d.len() as int))
            =~= s.subrange(0, p).push(v) + s.subrange(p, s.len() as int));
    }
}

/// Insert a sample into a sorted vector, keeping it sorted.
fn insert_sample(v: &mut Vec<i64>, x: i64)
    requires
        old(v)@.len() < usize::MAX,
    ensures
        final(v)@ == insert_sorted(old(v)@, x),
{
    let mut p: usize = 0;
    while p < v.len() && v[p] < x
        invariant
            p <= v@.len(),
            forall|k: int| 0 <= k < p ==> v@[k] < x,
            v@ == old(v)@,
        decreases v@.len() - p,
    {
        p += 1;
    }
    proof {
        lemma_insert_at(v@, x, p as int);
    }
    v.insert(p, x);
    proof {
        assert(v@ =~= old(v)@.subrange(0, p as int).push(x) + old(v)@.subrange(
            p as int,
            old(v)@.len() as int,
        ));
    }
}

/// Sort a list of samples by insertion sort.
fn sort_samples(s: &Vec<i64>) -> (r: Vec<i64>)
    ensures
        r@ == sort64(s@),
{
    let mut out: Vec<i64> = Vec::new();
    let mut i: usize = 0;
    while i < s.len()
        invariant
            i <= s@.len(),
            out@ == sort64(s@.take(i as int)),
            out@.len() == i,
        decreases s@.len() - i,
    {
        proof {
            lemma_sort64_props(s@.take(i as int));
            lemma_insert_sorted_props(sort64(s@.take(i as int)), s@[i as int]);
            assert(s@.take(i + 1).drop_last() =~= s@.take(i as int));
        }
        insert_sample(&mut out, s[i]);
        i += 1;
    }
    proof {
        assert(s@.take(s@.len() as int) =~= s@);
    }
    out
}

/// Sum a list of samples whose values fit the narrower sample type.
fn sum_samples(s: &Vec<i64>) -> (r: i64)
    requires
        s@.len() <= 0x7FFF_FFFF,
        forall|i: int| 0 <= i < s@.len() ==> -0x8000_0000 <= #[trigger] s@[i] <= 0x7FFF_FFFF,
    ensures
        r == seq_sum(s@),
{
    let mut sum: i64 = 0;
    let mut i: usize = 0;
    while i < s.len()
        invariant
            i <= s@.len(),
            s@.len() <= 0x7FFF_FFFF,
            forall|k: int| 0 <= k < s@.len() ==> -0x8000_0000 <= #[trigger] s@[k] <= 0x7FFF_FFFF,
            sum == seq_sum(s@.take(i as int)),
            -0x8000_0000 * (i as int) <= sum <= 0x7FFF_FFFF * (i as int),
        decreases s@.len() - i,
    {
        proof {
            assert(s@.take(i + 1).drop_last() =~= s@.take(i as int));
            assert(-0x8000_0000 * (i as int) - 0x8000_0000 == -0x8000_0000 * (i + 1 as int)
                && 0x7FFF_FFFF * (i as int) + 0x7FFF_FFFF == 0x7FFF_FFFF * (i + 1 as int))
                by (nonlinear_arith);
            assert(-0x8000_0000 * (0x8000_0000 as int) >= i64::MIN as int && 0x7FFF_FFFF * (
            0x8000_0000 as int) <= i64::MAX as int) by (nonlinear_arith);
            assert(-0x8000_0000 * (i + 1 as int) >= -0x8000_0000 * (0x8000_0000 as int)
                && 0x7FFF_FFFF * (i + 1 as int) <= 0x7FFF_FFFF * (0x8000_0000 as int))
                by (nonlinear_arith)
                requires
                    i + 1 <= 0x8000_0000,
            ;
        }
        sum = sum + s[i];
        i += 1;
    }
    proof {
        assert(s@.take(s@.len() as int) =~= s@);
    }
    sum
}

/// Division truncating toward zero, via unsigned division on the
/// magnitude.
pub(crate) fn div_trunc(a: i64, n: i64) -> (r: i64)
    requires
        1 <= n,
        -0x4000_0000_0000_0000 <= a <= 0x4000_0000_0000_0000,
    ensures
        r == trunc_div(a as int, n as int),
{
    if a >= 0 {
        proof {
            vstd::arithmetic::div_mod::lemma_div_nonincreasing(a as int, n as int);
            vstd::arithmetic::div_mod::lemma_div_pos_is_pos(a as int, n as int);
        }
        ((a as u64) / (n as u64)) as i64
    } else {
        let m = (-a) as u64;
        proof {
            vstd::arithmetic::div_mod::lemma_div_nonincreasing(m as int, n as int);
            vstd::arithmetic::div_mod::lemma_div_pos_is_pos(m as int, n as int);
        }
        -((m / (n as u64)) as i64)
    }
}

/// The outlier-trimmed truncating mean of one axis of a non-empty
/// sample list. The result lies within the samples' machine range.
fn robust_mean_exec(s: &Vec<i64>) -> (r: i64)
    requires
        1 <= s@.len() <= 0x7FFF_FFFF,
        forall|i: int| 0 <= i < s@.len() ==> -0x8000_0000 <= #[trigger] s@[i] <= 0x7FFF_FFFF,
    ensures
        r == robust_mean(s@),
        -0x8000_0000 <= r <= 0x7FFF_FFFF,
{
    let v = sort_samples(s);
    proof {
        lemma_sort64_props(s@);
        lemma_multiset_range(s@, v@, -0x8000_0000, 0x7FFF_FFFF);
    }
    let n = v.len();
    if n < 4 {
        let sum = sum_samples(&v);
        proof {
            lemma_sum_bounds(v@, -0x8000_0000, 0x7FFF_FFFF);
            assert((v@.len() as int) * (-0x8000_0000) >= -0x4000_0000_0000_0000 && (
            v@.len() as int) * 0x7FFF_FFFF <= 0x4000_0000_0000_0000) by (nonlinear_arith)
                requires
                    v@.len() <= 0x7FFF_FFFF,
            ;
            lemma_trunc_mean_bounds(sum as int, v@.len() as int, -0x8000_0000, 0x7FFF_FFFF);
        }
        div_trunc(sum, n as i64)
    } else {
        let i1 = n / 4;
        let i3 = ((3 * (n as u64)) / 4) as usize;
        proof {
            vstd::arithmetic::div_mod::lemma_div_is_ordered(
                n as int,
                3 * (n as int),
                4,
            );
            assert(3 * (n as int) <= 4 * (n as int) - 4) by (nonlinear_arith)
                requires
                    n >= 4,
            ;
            vstd::arithmetic::div_mod::lemma_div_is_ordered(3 * (n as int), 4 * (n as int) - 4, 4);
            assert((4 * (n as int) - 4) == 4 * ((n as int) - 1)) by (nonlinear_arith);
            vstd::arithmetic::div_mod::lemma_div_multiples_vanish((n as int) - 1, 4);
            vstd::arithmetic::div_mod::lemma_div_nonincreasing(n as int, 4);
        }
        let q1 = v[i1];
        let q3 = v[i3];
        let iqr = q3 - q1;
        assert(iqr >= 0);
        let half = div_trunc(3 * iqr, 2);
        proof {
            vstd::arithmetic::div_mod::lemma_div_pos_is_pos(3 * (iqr as int), 2);
            vstd::arithmetic::div_mod::lemma_div_nonincreasing(3 * (iqr as int), 2);
        }
        let lo = q1 - half;
        let hi = q3 + half;
        let mut f: Vec<i64> = Vec::new();
        let mut i: usize = 0;
        while i < n
            invariant
                i <= v@.len(),
                n == v@.len(),
                forall|k: int| 0 <= k < v@.len() ==> -0x8000_0000 <= #[trigger] v@[k]
                    <= 0x7FFF_FFFF,
                f@ == bounds_filter(v@.take(i as int), lo as int, hi as int),
                forall|k: int| 0 <= k < f@.len() ==> -0x8000_0000 <= #[trigger] f@[k]
                    <= 0x7FFF_FFFF,
                f@.len() <= i,
            decreases v@.len() - i,
        {
            proof {
                assert(v@.take(i + 1).drop_last() =~= v@.take(i as int));
            }
            let x = v[i];
            if lo <= x && x <= hi {
                f.push(x);
            }
            i += 1;
        }
        proof {
            assert(v@.take(v@.len() as int) =~= v@);
        }
        if f.len() == 0 {
            let sum = sum_samples(&v);
            proof {
                lemma_sum_bounds(v@, -0x8000_0000, 0x7FFF_FFFF);
                assert((v@.len() as int) * (-0x8000_0000) >= -0x4000_0000_0000_0000 && (
                v@.len() as int) * 0x7FFF_FFFF <= 0x4000_0000_0000_0000) by (nonlinear_arith)
                    requires
                        v@.len() <= 0x7FFF_FFFF,
                ;
                lemma_trunc_mean_bounds(sum as int, v@.len() as int, -0x8000_0000, 0x7FFF_FFFF);
            }
            div_trunc(sum, n as i64)
        } else {
            let sum = sum_samples(&f);
            proof {
                lemma_sum_bounds(f@, -0x8000_0000, 0x7FFF_FFFF);
                assert((f@.len() as int) * (-0x8000_0000) >= -0x4000_0000_0000_0000 && (
                f@.len() as int) * 0x7FFF_FFFF <= 0x4000_0000_0000_0000) by (nonlinear_arith)
                    requires
                        f@.len() <= 0x7FFF_FFFF,
                ;
                lemma_trunc_mean_bounds(sum as int, f@.len() as int, -0x8000_0000, 0x7FFF_FFFF);
            }
            let flen = f.len();
            div_trunc(sum, flen as i64)
        }
    }
}

/// Combine noisy point samples into one robust point: outlier-trimmed
/// truncating mean per axis, majority vote on the double flag (a tie
/// counting as a double click).
pub fn aggregate_points(points: &Vec<ViewportPoint>) -> (r: ViewportPoint)
    requires
        1 <= points@.len() <= 0x7FFF_FFFF,
    ensures
        r.x as int == robust_mean(xs_of(points@)),
        r.y as int == robust_mean(ys_of(points@)),
        r.double == majority_double(points@),
{
    let mut xs: Vec<i64> = Vec::new();
    let mut ys: Vec<i64> = Vec::new();
    let mut doubles: usize = 0;
    let mut i: usize = 0;
    while i < points.len()
        invariant
            i <= points@.len(),
            points@.len() <= 0x7FFF_FFFF,
            xs@ == xs_of(points@.take(i as int)),
            ys@ == ys_of(points@.take(i as int)),
            doubles == count_double(points@.take(i as int)),
            doubles <= i,
        decreases points@.len() - i,
    {
        proof {
            assert(points@.take(i + 1).drop_last() =~= points@.take(i as int));
            assert(xs_of(points@.take(i + 1)) =~= xs_of(points@.take(i as int)).push(
                points@[i as int].x as i64,
            ));
            assert(ys_of(points@.take(i + 1)) =~= ys_of(points@.take(i as int)).push(
                points@[i as int].y as i64,
            ));
        }
        let p = points[i];
        xs.push(p.x as i64);
        ys.push(p.y as i64);
        if p.double {
            doubles += 1;
        }
        i += 1;
    }
    proof {
        assert(points@.take(points@.len() as int) =~= points@);
        assert(forall|k: int|
            0 <= k < xs@.len() ==> -0x8000_0000 <= #[trigger] xs@[k] <= 0x7FFF_FFFF);
        assert(forall|k: int|
            0 <= k < ys@.len() ==> -0x8000_0000 <= #[trigger] ys@[k] <= 0x7FFF_FFFF);
    }
    let mx = robust_mean_exec(&xs);
    let my = robust_mean_exec(&ys);
    let dbl = 2 * (doubles as u64) >= points.len() as u64;
    ViewportPoint { x: mx as i32, y: my as i32, double: dbl }
}

/// Aggregating a single sample returns it unchanged: the mean of one
/// value is that value, and the vote of one sample is its own flag.
pub proof fn lemma_aggregate_singleton(s: Seq<ViewportPoint>)
    requires
        s.len() == 1,
    ensures
        robust_mean(xs_of(s)) == s[0].x as int,
        robust_mean(ys_of(s)) == s[0].y as int,
        majority_double(s) == s[0].double,
    decreases s.len(),
{
    lemma_robust_mean_singleton(xs_of(s));
    lemma_robust_mean_singleton(ys_of(s));
    assert(s.drop_last().len() == 0);
    assert(count_double(s.drop_last()) == 0);
    assert(s.last() == s[0]);
    assert(count_double(s) == if s[0].double {
        1int
    } else {
        0int
    });
}

/// The robust mean of a single sample is that sample.
proof fn lemma_robust_mean_singleton(s: Seq<i64>)
    requires
        s.len() == 1,
    ensures
        robust_mean(s) == s[0] as int,
{
    assert(s.drop_last().len() == 0);
    assert(sort64(s) =~= insert_sorted(sort64(s.drop_last()), s[0]));
    assert(sort64(s.drop_last()) =~= Seq::<i64>::empty());
    assert(insert_sorted(Seq::<i64>::empty(), s[0]) =~= seq![s[0]]);
    let v = sort64(s);
    assert(v =~= seq![s[0]]);
    assert(v.drop_last() =~= Seq::<i64>::empty());
    assert(seq_sum(v.drop_last()) == 0);
    assert(v.last() == s[0]);
    assert(seq_sum(v) == s[0] as int);
    lemma_trunc_one(s[0] as int);
}

/// Dividing by one changes nothing, whichever way it truncates.
proof fn lemma_trunc_one(a: int)
    ensures
        trunc_div(a, 1) == a,
{
    if a >= 0 {
        vstd::arithmetic::div_mod::lemma_div_multiples_vanish(a, 1);
        assert(1 * a == a) by (nonlinear_arith);
    } else {
        vstd::arithmetic::div_mod::lemma_div_multiples_vanish(-a, 1);
        assert(1 * (-a) == -a) by (nonlinear_arith);
    }
}

/// With fewer than four samples the aggregate is always the plain
/// truncating mean of the samples, never the quantile-filtered one.
pub proof fn lemma_small_sample_plain_mean(s: Seq<i64>)
    requires
        1 <= s.len() < 4,
    ensures
        robust_mean(s) == trunc_div(seq_sum(s), s.len() as int),
{
    lemma_sort64_props(s);
    lemma_sum_permutation(sort64(s), s);
}

} // verus!
