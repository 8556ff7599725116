//! Band resolution over a strictly increasing table of thresholds.
use vstd::prelude::*;

verus! {

/// The thresholds are strictly increasing.
pub open spec fn thresholds_sorted(t: Seq<u64>) -> bool {
    forall|i: int, j: int| 0 <= i < j < t.len() ==> t[i] < t[j]
}

/// The upper bound of the band of weight `w`, looking at the thresholds from
/// index `i` on: the first of them that is at least `w`, else `u64::MAX`.
pub open spec fn band_from(t: Seq<u64>, i: int, w: u64) -> u64
    decreases t.len() - i,
{
    if i < 0 || i >= t.len() {
        u64::MAX
    } else if w <= t[i] {
        t[i]
    } else {
        band_from(t, i + 1, w)
    }
}

/// The upper bound of the band that weight `w` falls into.
pub open spec fn band_of(t: Seq<u64>, w: u64) -> u64 {
    band_from(t, 0, w)
}

/// `u` is the upper bound of one of the bands of `t`.
pub open spec fn is_band(t: Seq<u64>, u: u64) -> bool {
    u == u64::MAX || t.contains(u)
}

/// The band of a weight bounds the weight from above and is a band of the table.
pub proof fn lemma_band_from_bounds(t: Seq<u64>, i: int, w: u64)
    requires
        0 <= i,
    ensures
        w <= band_from(t, i, w),
        is_band(t, band_from(t, i, w)),
    decreases t.len() - i,
{
    if i < t.len() && w > t[i] {
        lemma_band_from_bounds(t, i + 1, w);
    }
    if i < t.len() && w <= t[i] {
        assert(t[i] == t[i]);
        assert(t.contains(t[i]));
    }
}

/// The band of a weight bounds the weight from above and is a band of the table.
pub proof fn lemma_band_bounds(t: Seq<u64>, w: u64)
    ensures
        w <= band_of(t, w),
        is_band(t, band_of(t, w)),
{
    lemma_band_from_bounds(t, 0, w);
}

proof fn lemma_band_from_monotonic(t: Seq<u64>, i: int, w1: u64, w2: u64)
    requires
        0 <= i,
        thresholds_sorted(t),
        w1 <= w2,
    ensures
        band_from(t, i, w1) <= band_from(t, i, w2),
    decreases t.len() - i,
{
    if i < t.len() {
        if w1 <= t[i] && w2 > t[i] {
            lemma_band_from_bounds(t, i + 1, w2);
        } else if w1 > t[i] {
            lemma_band_from_monotonic(t, i + 1, w1, w2);
        }
    }
}

/// Resolution is monotonic: a heavier weight never falls into a lower band.
pub proof fn lemma_band_monotonic(t: Seq<u64>, w1: u64, w2: u64)
    requires
        thresholds_sorted(t),
        w1 <= w2,
    ensures
        band_of(t, w1) <= band_of(t, w2),
{
    lemma_band_from_monotonic(t, 0, w1, w2);
}

/// The upper bound of the band that `weight` falls into: the smallest
/// threshold at least `weight`, or `u64::MAX` where there is none.
pub fn notional_bag_for(thresholds: &Vec<u64>, weight: u64) -> (r: u64)
    ensures
        r == band_of(thresholds@, weight),
{
    let mut i: usize = 0;
    while i < thresholds.len()
        invariant
            i <= thresholds.len(),
            band_from(thresholds@, i as int, weight) == band_of(thresholds@, weight),
        decreases thresholds.len() - i,
    {
        if weight <= thresholds[i] {
            return thresholds[i];
        }
        i = i + 1;
    }
    u64::MAX
}

/// Whether the thresholds are strictly increasing.
pub fn is_sorted_strictly(thresholds: &Vec<u64>) -> (r: bool)
    ensures
        r == thresholds_sorted(thresholds@),
{
    let mut i: usize = 1;
    while i < thresholds.len()
        invariant
            1 <= i,
            thresholds.len() == 0 || i <= thresholds.len(),
            forall|a: int, b: int| 0 <= a < b < i && b < thresholds.len() ==> thresholds@[a] < thresholds@[b],
        decreases thresholds.len() - i,
    {
        if thresholds[i - 1] >= thresholds[i] {
            return false;
        }
        i = i + 1;
    }
    true
}

} // verus!
