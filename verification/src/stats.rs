//! Robust statistics: median and median absolute deviation.
//!
//! Samples are fixed-point integers. The median of an integer sample is a
//! half-integer, so the library states every result in exact subdivided
//! units: `median` returns a [`Ratio`] with denominator 2 whose numerator
//! is twice the median, and `median_absolute_deviation` returns a [`Ratio`]
//! with denominator 4 whose numerator is four times the deviation. Both are
//! exact; nothing is rounded.

use vstd::prelude::*;
use vstd::seq_lib::*;
use vstd::relations::sorted_by;
use crate::ratio::Ratio;
use crate::MAX_UNIT;
use crate::in_sample_range;

verus! {

/// Magnitude bound under which the internal statistic routines are free of
/// overflow; derived statistics of unit-range samples stay within it.
pub const STAT_BOUND: i64 = 8 * MAX_UNIT;

/// The `i64` sequence seen as a sequence of mathematical integers.
pub open spec fn as_ints(s: Seq<i64>) -> Seq<int> {
    s.map_values(|x: i64| x as int)
}

/// Twice the median of a non-empty sample: the sum of the two middle
/// elements of the sorted sample (even length), or twice the single middle
/// element (odd length). Stated doubled so that it is always an integer.
pub open spec fn median_twice_spec(s: Seq<int>) -> int
    recommends
        s.len() > 0,
{
    let t = s.sort();
    if s.len() % 2 == 0 {
        t[s.len() as int / 2 - 1] + t[s.len() as int / 2]
    } else {
        2 * t[s.len() as int / 2]
    }
}

/// Twice the absolute deviation of each sample point from a half-integer
/// center `c2 / 2`: the element for `x` is `|2*x - c2|`.
pub open spec fn deviations_twice(s: Seq<int>, c2: int) -> Seq<int> {
    s.map_values(|x: int| vstd::math::abs(2 * x - c2) as int)
}

/// Four times the median absolute deviation of a sample about the
/// half-integer center `c2 / 2`.
pub open spec fn mad_quad_spec(s: Seq<int>, c2: int) -> int
    recommends
        s.len() > 0,
{
    median_twice_spec(deviations_twice(s, c2))
}

/// An `i64` sequence that is sorted ascending.
pub open spec fn sorted64(s: Seq<i64>) -> bool {
    forall|i: int, j: int| 0 <= i < j < s.len() ==> s[i] <= s[j]
}

/// Mapping a function over two sequences with equal multisets yields
/// sequences with equal multisets.
proof fn lemma_map_values_multiset<A, B>(s: Seq<A>, t: Seq<A>, f: spec_fn(A) -> B)
    requires
        s.to_multiset() == t.to_multiset(),
    ensures
        s.map_values(f).to_multiset() == t.map_values(f).to_multiset(),
    decreases s.len(),
{
    broadcast use group_to_multiset_ensures;
    broadcast use vstd::multiset::group_multiset_axioms;

    if s.len() == 0 {
        assert(s.to_multiset().len() == s.len());
        assert(t.to_multiset().len() == t.len());
        assert(t.len() == 0);
        assert(s.map_values(f).to_multiset() =~= t.map_values(f).to_multiset());
    } else {
        let x = s[0];
        assert(s.contains(x));
        assert(s.to_multiset().count(x) > 0);
        assert(t.to_multiset().count(x) > 0);
        assert(t.contains(x));
        let j = choose|j: int| 0 <= j < t.len() && t[j] == x;
        let s1 = s.remove(0);
        let t1 = t.remove(j);
        assert(s1.to_multiset() == s.to_multiset().remove(x));
        assert(t1.to_multiset() == t.to_multiset().remove(x));
        lemma_map_values_multiset(s1, t1, f);

        let ms = s.map_values(f);
        let mt = t.map_values(f);
        assert(ms.remove(0) =~= s1.map_values(f));
        assert(mt.remove(j) =~= t1.map_values(f));
        assert(ms.remove(0).to_multiset() == ms.to_multiset().remove(f(x)));
        assert(mt.remove(j).to_multiset() == mt.to_multiset().remove(mt[j]));
        assert(mt[j] == f(x));
        assert(ms.contains(f(x)));
        assert(mt.contains(f(x)));
        assert(ms.to_multiset().count(f(x)) > 0);
        assert(mt.to_multiset().count(f(x)) > 0);
        assert forall|b: B| ms.to_multiset().count(b) == mt.to_multiset().count(b) by {
            if b == f(x) {
                assert(ms.to_multiset().remove(f(x)).count(b) == ms.to_multiset().count(b) - 1);
                assert(mt.to_multiset().remove(f(x)).count(b) == mt.to_multiset().count(b) - 1);
            } else {
                assert(ms.to_multiset().remove(f(x)).count(b) == ms.to_multiset().count(b));
                assert(mt.to_multiset().remove(f(x)).count(b) == mt.to_multiset().count(b));
            }
        }
        assert(ms.to_multiset() =~= mt.to_multiset());
    }
}

/// The median is invariant under reordering of the sample: any two samples
/// holding the same values with the same multiplicities have the same
/// median.
pub proof fn lemma_median_reorder(s: Seq<int>, t: Seq<int>)
    requires
        s.len() > 0,
        s.to_multiset() == t.to_multiset(),
    ensures
        median_twice_spec(s) == median_twice_spec(t),
{
    broadcast use group_to_multiset_ensures;

    s.lemma_sort_ensures();
    t.lemma_sort_ensures();
    assert(s.to_multiset().len() == s.len());
    assert(t.to_multiset().len() == t.len());
    assert(s.len() == t.len());
    lemma_sorted_unique(s.sort(), t.sort(), |x: int, y: int| x <= y);
}

/// The median absolute deviation is invariant under reordering of the
/// sample, for any fixed center.
pub proof fn lemma_mad_reorder(s: Seq<int>, t: Seq<int>, c2: int)
    requires
        s.len() > 0,
        s.to_multiset() == t.to_multiset(),
    ensures
        mad_quad_spec(s, c2) == mad_quad_spec(t, c2),
{
    broadcast use group_to_multiset_ensures;

    lemma_map_values_multiset(s, t, |x: int| vstd::math::abs(2 * x - c2) as int);
    lemma_median_reorder(deviations_twice(s, c2), deviations_twice(t, c2));
}

/// The doubled median of a sample lies between twice the least and twice
/// the greatest bound on the sample.
pub proof fn lemma_median_twice_bounds(s: Seq<int>, lo: int, hi: int)
    requires
        s.len() > 0,
        forall|i: int| 0 <= i < s.len() ==> lo <= #[trigger] s[i] <= hi,
    ensures
        2 * lo <= median_twice_spec(s) <= 2 * hi,
{
    broadcast use group_to_multiset_ensures;

    s.lemma_sort_ensures();
    let t = s.sort();
    assert(s.to_multiset().len() == s.len());
    assert(t.to_multiset().len() == t.len());
    assert(t.len() == s.len());
    assert forall|i: int| 0 <= i < t.len() implies lo <= #[trigger] t[i] <= hi by {
        assert(t.contains(t[i]));
        assert(t.to_multiset().count(t[i]) > 0);
        assert(s.to_multiset().count(t[i]) > 0);
        assert(s.contains(t[i]));
        let k = choose|k: int| 0 <= k < s.len() && s[k] == t[i];
        assert(lo <= s[k] <= hi);
    }
}

/// Inserts `x` into a sorted vector, keeping it sorted.
fn sorted_insert(v: &mut Vec<i64>, x: i64)
    requires
        sorted64(old(v)@),
    ensures
        sorted64(final(v)@),
        final(v)@.to_multiset() == old(v)@.to_multiset().insert(x),
        final(v)@.len() == old(v)@.len() + 1,
{
    broadcast use group_to_multiset_ensures;
    broadcast use to_multiset_insert;

    let mut k: usize = 0;
    while k < v.len() && v[k] <= x
        invariant
            k <= v@.len(),
            sorted64(v@),
            forall|i: int| 0 <= i < k ==> v@[i] <= x,
        decreases v@.len() - k,
    {
        k = k + 1;
    }
    let ghost pre = v@;
    v.insert(k, x);
    assert(v@ == pre.insert(k as int, x));
    assert forall|i: int, j: int| 0 <= i < j < v@.len() implies v@[i] <= v@[j] by {
        if i < k && j > k {
            assert(v@[i] == pre[i] && v@[j] == pre[j - 1]);
        } else if j == k {
            assert(v@[i] == pre[i]);
        } else if i == k && j > k {
            assert(v@[j] == pre[j - 1]);
            assert(pre[k as int] <= pre[j - 1]);
        }
    }
}

/// Sorts a copy of the sample ascending.
fn sort64(v: &Vec<i64>) -> (r: Vec<i64>)
    ensures
        sorted64(r@),
        r@.to_multiset() == v@.to_multiset(),
        r@.len() == v@.len(),
{
    broadcast use group_to_multiset_ensures;

    let mut r: Vec<i64> = Vec::new();
    let mut i: usize = 0;
    while i < v.len()
        invariant
            i <= v@.len(),
            sorted64(r@),
            r@.len() == i,
            r@.to_multiset() == v@.take(i as int).to_multiset(),
        decreases v@.len() - i,
    {
        let ghost prefix = v@.take(i as int);
        sorted_insert(&mut r, v[i]);
        assert(v@.take((i + 1) as int) =~= prefix.push(v@[i as int]));
        proof {
            to_multiset_build(prefix, v@[i as int]);
        }
        i = i + 1;
    }
    assert(v@.take(v@.len() as int) =~= v@);
    r
}

/// A sorted rearrangement of a sample is, as a sequence of integers, the
/// sorted version of that sample.
proof fn lemma_sorted_is_sort(a: Seq<i64>, b: Seq<i64>)
    requires
        sorted64(b),
        a.to_multiset() == b.to_multiset(),
    ensures
        as_ints(b) == as_ints(a).sort(),
{
    broadcast use group_to_multiset_ensures;

    let leq = |x: int, y: int| x <= y;
    as_ints(a).lemma_sort_ensures();
    lemma_map_values_multiset(a, b, |x: i64| x as int);
    assert(sorted_by(as_ints(b), leq));
    lemma_sorted_unique(as_ints(b), as_ints(a).sort(), leq);
}

/// Computes twice the median of a non-empty, magnitude-bounded sample.
fn median_twice(samples: &Vec<i64>) -> (r: i64)
    requires
        samples@.len() > 0,
        forall|i: int| 0 <= i < samples@.len()
            ==> -STAT_BOUND <= #[trigger] samples@[i] <= STAT_BOUND,
    ensures
        r as int == median_twice_spec(as_ints(samples@)),
        -2 * STAT_BOUND <= r <= 2 * STAT_BOUND,
{
    broadcast use group_to_multiset_ensures;

    let t = sort64(samples);
    proof {
        lemma_sorted_is_sort(samples@, t@);
        assert forall|i: int| 0 <= i < t@.len()
            implies -STAT_BOUND <= #[trigger] t@[i] <= STAT_BOUND by {
            assert(t@.contains(t@[i]));
            assert(t@.to_multiset().count(t@[i]) > 0);
            assert(samples@.to_multiset().count(t@[i]) > 0);
            assert(samples@.contains(t@[i]));
        }
    }
    let n = t.len();
    let mid = n / 2;
    if n % 2 == 0 {
        let lo = t[mid - 1];
        let hi = t[mid];
        assert(as_ints(t@)[mid - 1] == lo as int && as_ints(t@)[mid as int] == hi as int);
        lo + hi
    } else {
        let m = t[mid];
        assert(as_ints(t@)[mid as int] == m as int);
        2 * m
    }
}

/// Exact median of a non-empty sample of fixed-point values, returned in
/// half-units: the result is the ratio `num / 2` where `num` is the sum of
/// the two middle elements (even length) or twice the middle element (odd
/// length) of the sorted sample.
pub fn median(samples: &Vec<i64>) -> (r: Ratio)
    requires
        samples@.len() > 0,
        forall|i: int| 0 <= i < samples@.len()
            ==> in_sample_range(#[trigger] samples@[i] as int),
    ensures
        r.den == 2,
        r.num as int == median_twice_spec(as_ints(samples@)),
        -4 * MAX_UNIT <= r.num <= 4 * MAX_UNIT,
{
    assert forall|i: int| 0 <= i < samples@.len()
        implies -STAT_BOUND <= #[trigger] samples@[i] <= STAT_BOUND by {
        assert(in_sample_range(samples@[i] as int));
    }
    let num = median_twice(samples);
    proof {
        lemma_median_twice_bounds(as_ints(samples@), -2 * MAX_UNIT as int, 2 * MAX_UNIT as int);
    }
    Ratio { num, den: 2 }
}

/// Exact median absolute deviation of a non-empty sample about a
/// half-integer center (as produced by [`median`]), returned in quarter
/// units: the result is `num / 4` where `num` is twice the median of the
/// doubled deviations `|2*x - center.num|`.
pub fn median_absolute_deviation(samples: &Vec<i64>, center: Ratio) -> (r: Ratio)
    requires
        samples@.len() > 0,
        forall|i: int| 0 <= i < samples@.len()
            ==> in_sample_range(#[trigger] samples@[i] as int),
        center.den == 2,
        -4 * MAX_UNIT <= center.num <= 4 * MAX_UNIT,
    ensures
        r.den == 4,
        r.num as int == mad_quad_spec(as_ints(samples@), center.num as int),
        0 <= r.num <= 16 * MAX_UNIT,
{
    let c2 = center.num;
    let mut devs: Vec<i64> = Vec::new();
    let mut i: usize = 0;
    while i < samples.len()
        invariant
            i <= samples@.len(),
            devs@.len() == i,
            forall|k: int| 0 <= k < samples@.len()
                ==> in_sample_range(#[trigger] samples@[k] as int),
            -4 * MAX_UNIT <= c2 <= 4 * MAX_UNIT,
            forall|k: int| 0 <= k < i ==> 0 <= #[trigger] devs@[k] <= 8 * MAX_UNIT,
            as_ints(devs@) == deviations_twice(as_ints(samples@), c2 as int).take(i as int),
        decreases samples@.len() - i,
    {
        let x = samples[i];
        assert(in_sample_range(samples@[i as int] as int));
        let d0 = 2 * x - c2;
        let d = if d0 < 0 { -d0 } else { d0 };
        devs.push(d);
        assert(d as int == vstd::math::abs(2 * (x as int) - c2 as int));
        assert(as_ints(devs@) =~= deviations_twice(as_ints(samples@), c2 as int).take(
            (i + 1) as int));
        i = i + 1;
    }
    assert(as_ints(devs@) =~= deviations_twice(as_ints(samples@), c2 as int));
    assert forall|k: int| 0 <= k < devs@.len()
        implies -STAT_BOUND <= #[trigger] devs@[k] <= STAT_BOUND by {}
    let num = median_twice(&devs);
    proof {
        lemma_median_twice_bounds(as_ints(devs@), 0, 8 * MAX_UNIT as int);
    }
    Ratio { num, den: 4 }
}

} // verus!
