//! Aggregate statistics over a set of nanosecond values: extremes, truncated
//! mean, one-sided jitter and nearest-rank percentiles.
use vstd::prelude::*;
use crate::sort::{SortKey, sorted_by_key, sort_by_key};

verus! {

broadcast use vstd::seq_lib::group_seq_properties, vstd::multiset::group_multiset_axioms;

pub open spec fn spec_min(s: Seq<i64>) -> int
    decreases s.len(),
{
    if s.len() == 0 {
        0
    } else if s.len() == 1 {
        s[0] as int
    } else {
        let m = spec_min(s.drop_last());
        if s.last() < m {
            s.last() as int
        } else {
            m
        }
    }
}

pub open spec fn spec_max(s: Seq<i64>) -> int
    decreases s.len(),
{
    if s.len() == 0 {
        0
    } else if s.len() == 1 {
        s[0] as int
    } else {
        let m = spec_max(s.drop_last());
        if s.last() > m {
            s.last() as int
        } else {
            m
        }
    }
}

pub open spec fn spec_sum(s: Seq<i64>) -> int
    decreases s.len(),
{
    if s.len() == 0 {
        0
    } else {
        spec_sum(s.drop_last()) + s.last()
    }
}

/// How many values of `s` lie strictly below `x`.
pub open spec fn count_below(s: Seq<i64>, x: int) -> nat
    decreases s.len(),
{
    if s.len() == 0 {
        0
    } else {
        count_below(s.drop_last(), x) + if s.last() < x {
            1nat
        } else {
            0nat
        }
    }
}

/// The mean `sum / n`, truncated toward zero.
pub open spec fn spec_mean(sum: int, n: int) -> int {
    if sum >= 0 {
        sum / n
    } else {
        -((-sum) / n)
    }
}

/// The 1-based nearest rank for the fraction `num / den` among `n` values:
/// `ceil(n * num / den)`, at least 1.
pub open spec fn nearest_rank(n: int, num: int, den: int) -> int {
    let r = (n * num + den - 1) / den;
    if r < 1 {
        1
    } else {
        r
    }
}

/// `x` is the nearest-rank percentile `num / den` of `s`: fewer than the rank
/// values lie below `x`, and at least the rank lie at or below it.
pub open spec fn is_percentile(s: Seq<i64>, num: int, den: int, x: int) -> bool {
    count_below(s, x) < nearest_rank(s.len() as int, num, den) <= count_below(s, x + 1)
}

/// The aggregate of a non-empty set of values.
#[derive(Debug, Clone, Copy, PartialEq, Eq, Structural)]
pub struct ResponseStats {
    pub min: i64,
    pub max: i64,
    /// The mean, truncated toward zero.
    pub avg: i64,
    pub sum: i128,
    pub count: u64,
    /// The larger of `avg - min` and `max - avg`.
    pub jitter_abs: u64,
    pub quartile1: i64,
    pub median: i64,
    pub quartile3: i64,
}

/// A query that matched no value.
#[derive(Debug, Clone, Copy, PartialEq, Eq, Structural)]
pub enum StatsError {
    EmptySet,
}

pub open spec fn spec_jitter(min: int, avg: int, max: int) -> int {
    if avg - min >= max - avg {
        avg - min
    } else {
        max - avg
    }
}

/// `st` is the aggregate of the values `s`.
pub open spec fn stats_of(s: Seq<i64>, st: ResponseStats) -> bool {
    &&& st.count == s.len()
    &&& st.min == spec_min(s)
    &&& st.max == spec_max(s)
    &&& st.sum == spec_sum(s)
    &&& st.avg == spec_mean(spec_sum(s), s.len() as int)
    &&& st.jitter_abs == spec_jitter(spec_min(s), st.avg as int, spec_max(s))
    &&& is_percentile(s, 1, 4, st.quartile1 as int)
    &&& is_percentile(s, 1, 2, st.median as int)
    &&& is_percentile(s, 3, 4, st.quartile3 as int)
}

proof fn lemma_count_le_len(s: Seq<i64>, x: int)
    ensures
        count_below(s, x) <= s.len(),
    decreases s.len(),
{
    if s.len() > 0 {
        lemma_count_le_len(s.drop_last(), x);
    }
}

/// If every value from index `m` on is at least `x`, at most `m` values lie
/// below `x`.
proof fn lemma_count_at_most(s: Seq<i64>, x: int, m: int)
    requires
        0 <= m <= s.len(),
        forall|i: int| m <= i < s.len() ==> s[i] >= x,
    ensures
        count_below(s, x) <= m,
    decreases s.len(),
{
    if s.len() == m {
        lemma_count_le_len(s, x);
    } else {
        lemma_count_at_most(s.drop_last(), x, m);
    }
}

/// If every value before index `m` is below `x`, at least `m` values lie
/// below `x`.
proof fn lemma_count_at_least(s: Seq<i64>, x: int, m: int)
    requires
        0 <= m <= s.len(),
        forall|i: int| 0 <= i < m ==> s[i] < x,
    ensures
        count_below(s, x) >= m,
    decreases s.len(),
{
    if s.len() > 0 {
        if s.len() == m {
            lemma_count_at_least(s.drop_last(), x, m - 1);
        } else {
            lemma_count_at_least(s.drop_last(), x, m);
        }
    }
}

proof fn lemma_count_remove(s: Seq<i64>, j: int, x: int)
    requires
        0 <= j < s.len(),
    ensures
        count_below(s, x) == count_below(s.remove(j), x) + if s[j] < x {
            1int
        } else {
            0int
        },
    decreases s.len(),
{
    if j < s.len() - 1 {
        let t = s.drop_last();
        lemma_count_remove(t, j, x);
        assert(s.remove(j).drop_last() =~= t.remove(j));
        assert(s.remove(j).last() == s.last());
    } else {
        assert(s.remove(j) =~= s.drop_last());
    }
}

/// Counts depend on the multiset of values alone.
pub proof fn lemma_count_permutation(a: Seq<i64>, b: Seq<i64>, x: int)
    requires
        a.to_multiset() == b.to_multiset(),
    ensures
        count_below(a, x) == count_below(b, x),
    decreases a.len(),
{
    a.to_multiset_ensures();
    b.to_multiset_ensures();
    if a.len() == 0 {
        assert(b.len() == 0);
    } else {
        let e = a.last();
        let a2 = a.drop_last();
        assert(a2.push(e) =~= a);
        a2.to_multiset_ensures();
        assert(a.to_multiset().count(e) > 0);
        assert(b.contains(e));
        let j = b.index_of(e);
        let b2 = b.remove(j);
        assert(b2.to_multiset() =~= b.to_multiset().remove(e));
        assert(a2.to_multiset() =~= a.to_multiset().remove(e));
        lemma_count_permutation(a2, b2, x);
        lemma_count_remove(b, j, x);
    }
}

/// In a sorted sequence the value at index `k` has rank `k + 1`.
proof fn lemma_sorted_rank(s: Seq<i64>, k: int)
    requires
        sorted_by_key(s),
        0 <= k < s.len(),
    ensures
        count_below(s, s[k] as int) <= k,
        count_below(s, s[k] + 1) >= k + 1,
{
    assert forall|i: int| k <= i < s.len() implies s[i] >= s[k] by {
        assert(s[k].spec_key() <= s[i].spec_key());
    }
    lemma_count_at_most(s, s[k] as int, k);
    assert forall|i: int| 0 <= i < k + 1 implies s[i] < s[k] + 1 by {
        assert(s[i].spec_key() <= s[k].spec_key());
    }
    lemma_count_at_least(s, s[k] + 1, k + 1);
}

proof fn lemma_rank_bounds(n: int, num: int, den: int)
    requires
        n >= 1,
        0 <= num <= den,
        den > 0,
    ensures
        1 <= nearest_rank(n, num, den) <= n,
{
    assert(n * num <= n * den) by (nonlinear_arith)
        requires
            n >= 1,
            0 <= num <= den,
    ;
    assert((n * num + den - 1) / den <= n) by (nonlinear_arith)
        requires
            n * num <= n * den,
            den > 0,
            n >= 1,
    ;
}

/// The value at 1-based rank `nearest_rank(n, num, den)` of a sorted vector.
fn pick_rank(sorted: &Vec<i64>, num: u64, den: u64) -> (r: i64)
    requires
        sorted@.len() >= 1,
        sorted_by_key(sorted@),
        num <= den,
        den > 0,
    ensures
        is_percentile(sorted@, num as int, den as int, r as int),
{
    let n = sorted.len() as u128;
    proof {
        assert(n * num <= 0xffff_ffff_ffff_ffff * 0xffff_ffff_ffff_ffff) by (nonlinear_arith)
            requires
                n <= 0xffff_ffff_ffff_ffff,
                num <= 0xffff_ffff_ffff_ffff,
        ;
    }
    let prod: u128 = n * (num as u128);
    let q: u128 = (prod + (den as u128) - 1) / (den as u128);
    proof {
        lemma_rank_bounds(sorted@.len() as int, num as int, den as int);
    }
    let rank: u128 = if q < 1 {
        1
    } else {
        q
    };
    let idx = (rank - 1) as usize;
    proof {
        lemma_sorted_rank(sorted@, idx as int);
    }
    sorted[idx]
}

/// The nearest-rank percentile `num / den` of `values`.
pub fn percentile(values: &Vec<i64>, num: u64, den: u64) -> (r: Result<i64, StatsError>)
    requires
        num <= den,
        den > 0,
    ensures
        values@.len() == 0 <==> r is Err,
        r matches Ok(x) ==> is_percentile(values@, num as int, den as int, x as int),
{
    if values.len() == 0 {
        return Err(StatsError::EmptySet);
    }
    let sorted = sort_by_key(values);
    proof {
        sorted@.to_multiset_ensures();
        values@.to_multiset_ensures();
    }
    let x = pick_rank(&sorted, num, den);
    proof {
        lemma_count_permutation(sorted@, values@, x as int);
        lemma_count_permutation(sorted@, values@, x + 1);
    }
    Ok(x)
}

proof fn lemma_sum_bounds(s: Seq<i64>)
    requires
        s.len() >= 1,
    ensures
        spec_min(s) * s.len() <= spec_sum(s) <= spec_max(s) * s.len(),
        spec_min(s) <= spec_max(s),
        i64::MIN <= spec_min(s),
        spec_max(s) <= i64::MAX,
    decreases s.len(),
{
    if s.len() == 1 {
        assert(spec_sum(s.drop_last()) == 0);
        assert(spec_sum(s) == s[0]);
    } else {
        let t = s.drop_last();
        lemma_sum_bounds(t);
        let n = t.len() as int;
        let lo = spec_min(t);
        let hi = spec_max(t);
        let v = s.last() as int;
        let m = spec_min(s);
        let x = spec_max(s);
        assert(m <= lo && m <= v && x >= hi && x >= v);
        assert(m * n <= lo * n) by (nonlinear_arith)
            requires
                m <= lo,
                n >= 1,
        ;
        assert(hi * n <= x * n) by (nonlinear_arith)
            requires
                hi <= x,
                n >= 1,
        ;
        assert(m * (n + 1) == m * n + m) by (nonlinear_arith);
        assert(x * (n + 1) == x * n + x) by (nonlinear_arith);
    }
}

/// The truncated mean of values between `lo` and `hi` lies between them too.
proof fn lemma_mean_bounds(sum: int, n: int, lo: int, hi: int)
    requires
        n >= 1,
        lo * n <= sum <= hi * n,
    ensures
        lo <= spec_mean(sum, n) <= hi,
{
    if sum >= 0 {
        assert(lo <= sum / n) by (nonlinear_arith)
            requires
                lo * n <= sum,
                n >= 1,
        ;
        assert(sum / n <= hi) by (nonlinear_arith)
            requires
                sum <= hi * n,
                n >= 1,
        ;
    } else {
        let p = -sum;
        assert((-hi) * n <= p <= (-lo) * n) by (nonlinear_arith)
            requires
                lo * n <= sum <= hi * n,
                p == -sum,
        ;
        assert(-hi <= p / n) by (nonlinear_arith)
            requires
                (-hi) * n <= p,
                n >= 1,
        ;
        assert(p / n <= -lo) by (nonlinear_arith)
            requires
                p <= (-lo) * n,
                n >= 1,
        ;
    }
}

/// Aggregates a set of values: extremes, sum, truncated mean, jitter and
/// quartiles.
pub fn aggregate(values: &Vec<i64>) -> (r: Result<ResponseStats, StatsError>)
    ensures
        values@.len() == 0 <==> r is Err,
        r matches Ok(st) ==> stats_of(values@, st),
{
    let n = values.len();
    if n == 0 {
        return Err(StatsError::EmptySet);
    }
    let mut min: i64 = values[0];
    let mut max: i64 = values[0];
    let mut sum: i128 = values[0] as i128;
    let mut i: usize = 1;
    proof {
        assert(values@.subrange(0, 1) =~= seq![values@[0]]);
        assert(seq![values@[0]].drop_last() =~= Seq::<i64>::empty());
        assert(spec_sum(Seq::<i64>::empty()) == 0);
        assert(values@.subrange(0, 1).drop_last() =~= Seq::<i64>::empty());
        assert(spec_sum(values@.subrange(0, 1)) == values@[0]);
    }
    while i < n
        invariant
            n == values@.len(),
            1 <= i <= n,
            min == spec_min(values@.subrange(0, i as int)),
            max == spec_max(values@.subrange(0, i as int)),
            sum == spec_sum(values@.subrange(0, i as int)),
            -0x8000_0000_0000_0000 * i <= sum <= 0x7fff_ffff_ffff_ffff * i,
            n <= usize::MAX,
        decreases n - i,
    {
        let v = values[i];
        proof {
            assert(values@.subrange(0, i + 1).drop_last() =~= values@.subrange(0, i as int));
            assert(i + 1 <= 0x1_0000_0000_0000_0000);
        }
        if v < min {
            min = v;
        }
        if v > max {
            max = v;
        }
        sum = sum + v as i128;
        i = i + 1;
    }
    proof {
        assert(values@.subrange(0, n as int) =~= values@);
        lemma_sum_bounds(values@);
        lemma_mean_bounds(sum as int, n as int, min as int, max as int);
    }
    let count = n as u64;
    let avg: i64 = if sum >= 0 {
        (sum / (n as i128)) as i64
    } else {
        let neg: i128 = -sum;
        let q: i128 = neg / (n as i128);
        (-q) as i64
    };
    let jitter_abs: u64 = if (avg as i128) - (min as i128) >= (max as i128) - (avg as i128) {
        ((avg as i128) - (min as i128)) as u64
    } else {
        ((max as i128) - (avg as i128)) as u64
    };
    let sorted = sort_by_key(values);
    proof {
        sorted@.to_multiset_ensures();
        values@.to_multiset_ensures();
    }
    let quartile1 = pick_rank(&sorted, 1, 4);
    let median = pick_rank(&sorted, 1, 2);
    let quartile3 = pick_rank(&sorted, 3, 4);
    proof {
        lemma_count_permutation(sorted@, values@, quartile1 as int);
        lemma_count_permutation(sorted@, values@, quartile1 + 1);
        lemma_count_permutation(sorted@, values@, median as int);
        lemma_count_permutation(sorted@, values@, median + 1);
        lemma_count_permutation(sorted@, values@, quartile3 as int);
        lemma_count_permutation(sorted@, values@, quartile3 + 1);
    }
    Ok(ResponseStats { min, max, avg, sum, count, jitter_abs, quartile1, median, quartile3 })
}

proof fn lemma_count_monotone(s: Seq<i64>, x: int, y: int)
    requires
        x <= y,
    ensures
        count_below(s, x) <= count_below(s, y),
    decreases s.len(),
{
    if s.len() > 0 {
        lemma_count_monotone(s.drop_last(), x, y);
    }
}

/// A nearest-rank percentile is unique.
pub proof fn lemma_percentile_unique(s: Seq<i64>, num: int, den: int, x: int, y: int)
    requires
        is_percentile(s, num, den, x),
        is_percentile(s, num, den, y),
    ensures
        x == y,
{
    if x < y {
        lemma_count_monotone(s, x + 1, y);
    } else if y < x {
        lemma_count_monotone(s, y + 1, x);
    }
}

/// The median of an odd number of ascending values is the middle one.
pub proof fn lemma_median_of_odd(s: Seq<i64>, x: int)
    requires
        forall|i: int, j: int| 0 <= i <= j < s.len() ==> s[i] <= s[j],
        s.len() % 2 == 1,
        is_percentile(s, 1, 2, x),
    ensures
        x == s[(s.len() / 2) as int],
{
    let k = (s.len() / 2) as int;
    assert(sorted_by_key(s)) by {
        assert forall|i: int, j: int| 0 <= i <= j < s.len() implies s[i].spec_key()
            <= s[j].spec_key() by {
            assert(s[i] <= s[j]);
        }
    }
    lemma_sorted_rank(s, k);
    assert(nearest_rank(s.len() as int, 1, 2) == k + 1);
    lemma_percentile_unique(s, 1, 2, x, s[k] as int);
}

/// Over any non-empty set of values the truncated mean lies between the
/// extremes, and the absolute jitter is the larger of the two distances from
/// the mean to the extremes, never negative.
pub proof fn lemma_aggregate_bounds(s: Seq<i64>, st: ResponseStats)
    requires
        s.len() > 0,
        stats_of(s, st),
    ensures
        st.min <= st.avg <= st.max,
        st.jitter_abs == if st.avg - st.min >= st.max - st.avg {
            st.avg - st.min
        } else {
            st.max - st.avg
        },
        st.jitter_abs >= 0,
{
    lemma_sum_bounds(s);
    lemma_mean_bounds(spec_sum(s), s.len() as int, spec_min(s), spec_max(s));
}

/// The aggregate of a set of values is determined by the values alone.
pub proof fn lemma_stats_unique(s: Seq<i64>, a: ResponseStats, b: ResponseStats)
    requires
        stats_of(s, a),
        stats_of(s, b),
    ensures
        a == b,
{
    lemma_percentile_unique(s, 1, 4, a.quartile1 as int, b.quartile1 as int);
    lemma_percentile_unique(s, 1, 2, a.median as int, b.median as int);
    lemma_percentile_unique(s, 3, 4, a.quartile3 as int, b.quartile3 as int);
}

} // verus!
