//! The median of a distribution given as counts per value.
//!
//! `counts[v]` is how many times the value `v` was seen. The median is the
//! first value at which the running count passes half of the total, so for
//! an even total the upper of the two middle values is chosen.
use vstd::prelude::*;

verus! {

/// The sum of the first `n` counts.
pub open spec fn prefix_sum(s: Seq<u32>, n: int) -> int
    decreases n,
{
    if n <= 0 {
        0
    } else {
        prefix_sum(s, n - 1) + s[n - 1]
    }
}

/// The sum of all counts.
pub open spec fn total(s: Seq<u32>) -> int {
    prefix_sum(s, s.len() as int)
}

/// `i` is the value at which the running count first exceeds half the total.
pub open spec fn is_median_bucket(s: Seq<u32>, i: int) -> bool {
    &&& 0 <= i < s.len()
    &&& prefix_sum(s, i) <= total(s) / 2
    &&& total(s) / 2 < prefix_sum(s, i + 1)
}

/// The median value of a distribution with a positive total.
pub open spec fn median_bucket(s: Seq<u32>) -> int {
    choose|i: int| is_median_bucket(s, i)
}

/// Running counts never decrease.
pub proof fn lemma_prefix_sum_monotone(s: Seq<u32>, i: int, j: int)
    requires
        0 <= i <= j <= s.len(),
    ensures
        0 <= prefix_sum(s, i) <= prefix_sum(s, j),
    decreases j - i,
{
    if i < j {
        lemma_prefix_sum_monotone(s, i, j - 1);
    } else {
        lemma_prefix_sum_nonneg(s, i);
    }
}

/// Running counts are never negative.
pub proof fn lemma_prefix_sum_nonneg(s: Seq<u32>, n: int)
    ensures
        0 <= prefix_sum(s, n),
    decreases n,
{
    if n > 0 {
        lemma_prefix_sum_nonneg(s, n - 1);
    }
}

/// A running count only depends on the counts it has passed.
pub proof fn lemma_prefix_sum_update(s: Seq<u32>, k: int, x: u32, n: int)
    requires
        0 <= k < s.len(),
        0 <= n <= s.len(),
    ensures
        prefix_sum(s.update(k, x), n) == prefix_sum(s, n) + (if k < n { x - s[k] } else { 0 }),
    decreases n,
{
    if n > 0 {
        lemma_prefix_sum_update(s, k, x, n - 1);
    }
}

/// Raising one count by one raises the total by one.
pub proof fn lemma_total_increment(s: Seq<u32>, k: int)
    requires
        0 <= k < s.len(),
        s[k] < u32::MAX,
    ensures
        total(s.update(k, (s[k] + 1) as u32)) == total(s) + 1,
{
    lemma_prefix_sum_update(s, k, (s[k] + 1) as u32, s.len() as int);
}

/// A distribution of zeros has total zero.
pub proof fn lemma_prefix_sum_zeros(s: Seq<u32>, n: int)
    requires
        0 <= n <= s.len(),
        forall|i: int| 0 <= i < n ==> s[i] == 0,
    ensures
        prefix_sum(s, n) == 0,
    decreases n,
{
    if n > 0 {
        lemma_prefix_sum_zeros(s, n - 1);
    }
}

/// At most one value is the median.
pub proof fn lemma_median_bucket_unique(s: Seq<u32>, i: int, j: int)
    requires
        is_median_bucket(s, i),
        is_median_bucket(s, j),
    ensures
        i == j,
{
    if i < j {
        lemma_prefix_sum_monotone(s, i + 1, j);
    } else if j < i {
        lemma_prefix_sum_monotone(s, j + 1, i);
    }
}

/// Between a running count within half the total and one beyond it lies
/// the median.
proof fn lemma_median_bucket_between(s: Seq<u32>, lo: int, hi: int)
    requires
        0 <= lo < hi <= s.len(),
        prefix_sum(s, lo) <= total(s) / 2,
        total(s) / 2 < prefix_sum(s, hi),
    ensures
        exists|i: int| lo <= i < hi && is_median_bucket(s, i),
    decreases hi - lo,
{
    if total(s) / 2 < prefix_sum(s, lo + 1) {
        assert(is_median_bucket(s, lo));
    } else {
        lemma_median_bucket_between(s, lo + 1, hi);
    }
}

/// Every distribution with a positive total has exactly one median, and
/// `median_bucket` is it.
pub proof fn lemma_median_bucket_exists(s: Seq<u32>)
    requires
        total(s) > 0,
    ensures
        is_median_bucket(s, median_bucket(s)),
        forall|i: int| #[trigger] is_median_bucket(s, i) ==> i == median_bucket(s),
{
    if s.len() == 0 {
        assert(total(s) == 0);
    }
    lemma_median_bucket_between(s, 0, s.len() as int);
    let m = median_bucket(s);
    assert forall|i: int| #[trigger] is_median_bucket(s, i) implies i == m by {
        lemma_median_bucket_unique(s, i, m);
    }
}

/// The median is a value that was seen: its count is positive.
pub proof fn lemma_median_bucket_occupied(s: Seq<u32>)
    requires
        total(s) > 0,
    ensures
        s[median_bucket(s)] > 0,
{
    lemma_median_bucket_exists(s);
}

/// A distribution whose only seen value is `v` has median `v`.
pub proof fn lemma_median_of_single_value(s: Seq<u32>, v: int)
    requires
        0 <= v < s.len(),
        s[v] > 0,
        forall|i: int| 0 <= i < s.len() && i != v ==> s[i] == 0,
    ensures
        median_bucket(s) == v,
{
    lemma_prefix_sum_zeros(s, v);
    assert(prefix_sum(s, v + 1) == s[v]);
    assert forall|n: int| v + 1 <= n <= s.len() implies prefix_sum(s, n) == s[v] by {
        lemma_prefix_sum_tail_zero(s, v, n);
    }
    assert(total(s) == s[v]);
    assert(is_median_bucket(s, v));
    lemma_median_bucket_exists(s);
}

proof fn lemma_prefix_sum_tail_zero(s: Seq<u32>, v: int, n: int)
    requires
        0 <= v < s.len(),
        v + 1 <= n <= s.len(),
        prefix_sum(s, v + 1) == s[v],
        forall|i: int| 0 <= i < s.len() && i != v ==> s[i] == 0,
    ensures
        prefix_sum(s, n) == s[v],
    decreases n,
{
    if n > v + 1 {
        lemma_prefix_sum_tail_zero(s, v, n - 1);
    }
}

/// The median of the distribution `counts`: the first value at which the
/// running count exceeds half of the total. A value past 255 is reported
/// modulo 256.
///
/// The total must be positive (with no values seen there is no median) and
/// must fit in a `u32`.
pub fn median_from_counts(counts: &[u32]) -> (m: u8)
    requires
        0 < total(counts@) <= u32::MAX,
    ensures
        is_median_bucket(counts@, median_bucket(counts@)),
        m as int == median_bucket(counts@) % 256,
{
    proof {
        lemma_median_bucket_exists(counts@);
    }
    let len = counts.len();
    let mut sum: u32 = 0;
    let mut i: usize = 0;
    while i < len
        invariant
            len == counts@.len(),
            i <= len,
            sum == prefix_sum(counts@, i as int),
            total(counts@) <= u32::MAX,
        decreases len - i,
    {
        proof {
            lemma_prefix_sum_monotone(counts@, i + 1, len as int);
        }
        sum = sum + counts[i];
        i = i + 1;
    }
    let mid = sum / 2;
    let mut cumulative: u32 = 0;
    let mut value: usize = 0;
    while value < len
        invariant
            len == counts@.len(),
            value <= len,
            sum == total(counts@),
            mid == total(counts@) / 2,
            cumulative == prefix_sum(counts@, value as int),
            cumulative <= mid,
            0 < total(counts@) <= u32::MAX,
        decreases len - value,
    {
        proof {
            lemma_prefix_sum_monotone(counts@, value + 1, len as int);
        }
        cumulative = cumulative + counts[value];
        if cumulative > mid {
            proof {
                assert(is_median_bucket(counts@, value as int));
                lemma_median_bucket_exists(counts@);
            }
            return (value % 256) as u8;
        }
        value = value + 1;
    }
    0
}


/// Counts of zero leave the running count where it was.
proof fn lemma_prefix_sum_zero_run(s: Seq<u32>, lo: int, hi: int)
    requires
        0 <= lo <= hi <= s.len(),
        forall|i: int| lo <= i < hi ==> s[i] == 0,
    ensures
        prefix_sum(s, hi) == prefix_sum(s, lo),
    decreases hi - lo,
{
    if lo < hi {
        lemma_prefix_sum_zero_run(s, lo, hi - 1);
    }
}

/// Of two values seen equally often, and nothing else, the median is the
/// upper one.
pub proof fn lemma_two_equal_counts_pick_upper(s: Seq<u32>, a: int, b: int)
    requires
        0 <= a < b < s.len(),
        s[a] > 0,
        s[a] == s[b],
        forall|i: int| 0 <= i < s.len() && i != a && i != b ==> s[i] == 0,
    ensures
        median_bucket(s) == b,
{
    lemma_prefix_sum_zero_run(s, 0, a);
    lemma_prefix_sum_zero_run(s, a + 1, b);
    lemma_prefix_sum_zero_run(s, b + 1, s.len() as int);
    assert(prefix_sum(s, b + 1) == 2 * s[a]);
    assert(total(s) == 2 * s[a]);
    assert(is_median_bucket(s, b));
    lemma_median_bucket_exists(s);
}


/// A value seen more often than all other values together is the median.
pub proof fn lemma_majority_is_median(s: Seq<u32>, v: int)
    requires
        0 <= v < s.len(),
        2 * s[v] > total(s),
    ensures
        median_bucket(s) == v,
{
    lemma_prefix_sum_monotone(s, v + 1, s.len() as int);
    lemma_prefix_sum_nonneg(s, v);
    assert(prefix_sum(s, v + 1) == prefix_sum(s, v) + s[v]);
    assert(is_median_bucket(s, v));
    lemma_median_bucket_exists(s);
}

} // verus!
