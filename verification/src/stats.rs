//! Order statistics on integer samples: the value at a rank, percentiles
//! and medians.

use vstd::prelude::*;
use crate::units::{max_int, min_int, round_div, MICRO};

verus! {

/// The values as mathematical integers.
pub open spec fn wide(v: Seq<i64>) -> Seq<int> {
    v.map_values(|x: i64| x as int)
}

/// How many of the first `n` values are below `v`.
pub open spec fn count_below(s: Seq<int>, n: int, v: int) -> int
    decreases n,
{
    if n <= 0 {
        0
    } else {
        count_below(s, n - 1, v) + if s[n - 1] < v {
            1int
        } else {
            0int
        }
    }
}

/// How many of the first `n` values are at most `v`.
pub open spec fn count_upto(s: Seq<int>, n: int, v: int) -> int
    decreases n,
{
    if n <= 0 {
        0
    } else {
        count_upto(s, n - 1, v) + if s[n - 1] <= v {
            1int
        } else {
            0int
        }
    }
}

/// `v` is the value at position `k` (from zero) of `s` in ascending order.
pub open spec fn is_rank_value(s: Seq<int>, k: int, v: int) -> bool {
    count_below(s, s.len() as int, v) <= k < count_upto(s, s.len() as int, v)
}

/// The value at position `k` of `s` in ascending order.
pub open spec fn rank_value(s: Seq<int>, k: int) -> int {
    choose|v: int| is_rank_value(s, k, v)
}

/// Counts grow with the value: what is at most `v` is below anything
/// larger, and nothing is counted twice or beyond the values there are.
pub proof fn lemma_counts_ordered(s: Seq<int>, n: int, v: int, w: int)
    requires
        v < w,
    ensures
        count_upto(s, n, v) <= count_below(s, n, w),
        0 <= count_below(s, n, v) <= count_upto(s, n, v),
        count_upto(s, n, v) <= max_int(n, 0),
    decreases n,
{
    if n > 0 {
        lemma_counts_ordered(s, n - 1, v, w);
    }
}

/// At most one value holds a given rank.
pub proof fn lemma_rank_unique(s: Seq<int>, k: int, v: int, w: int)
    requires
        is_rank_value(s, k, v),
        is_rank_value(s, k, w),
    ensures
        v == w,
{
    if v < w {
        lemma_counts_ordered(s, s.len() as int, v, w);
    } else if w < v {
        lemma_counts_ordered(s, s.len() as int, w, v);
    }
}

proof fn lemma_some_above(s: Seq<int>, n: int, v: int)
    requires
        0 <= n,
        count_upto(s, n, v) < n,
    ensures
        exists|i: int| 0 <= i < n && s[i] > v,
    decreases n,
{
    if n > 0 {
        if s[n - 1] > v {
        } else {
            lemma_some_above(s, n - 1, v);
        }
    }
}

proof fn lemma_next_value(s: Seq<int>, n: int, v: int, w: int, at: int)
    requires
        v < w,
        forall|i: int| 0 <= i < n ==> s[i] <= v || s[i] >= w,
    ensures
        count_below(s, n, w) == count_upto(s, n, v),
        0 <= at < n && s[at] == w ==> count_upto(s, n, w) > count_upto(s, n, v),
        count_upto(s, n, w) >= count_upto(s, n, v),
    decreases n,
{
    if n > 0 {
        lemma_next_value(s, n - 1, v, w, at);
    }
}

proof fn lemma_least_value(s: Seq<int>, n: int, v: int)
    requires
        forall|i: int| 0 <= i < n ==> s[i] >= v,
    ensures
        count_below(s, n, v) == 0,
    decreases n,
{
    if n > 0 {
        lemma_least_value(s, n - 1, v);
    }
}

fn count_at_most(band: &Vec<i64>, v: i64) -> (c: usize)
    ensures
        c == count_upto(wide(band@), band@.len() as int, v as int),
        c <= band@.len(),
{
    let mut c: usize = 0;
    let mut i: usize = 0;
    while i < band.len()
        invariant
            i <= band@.len(),
            c <= i,
            c == count_upto(wide(band@), i as int, v as int),
        decreases band@.len() - i,
    {
        assert(wide(band@)[i as int] == band@[i as int]);
        if band[i] <= v {
            c += 1;
        }
        i += 1;
    }
    c
}

fn least_value(band: &Vec<i64>) -> (v: i64)
    requires
        band@.len() > 0,
    ensures
        forall|i: int| 0 <= i < band@.len() ==> band@[i] >= v,
        exists|i: int| 0 <= i < band@.len() && band@[i] == v,
{
    let mut v: i64 = band[0];
    let mut i: usize = 1;
    while i < band.len()
        invariant
            1 <= i <= band@.len(),
            forall|j: int| 0 <= j < i ==> band@[j] >= v,
            exists|j: int| 0 <= j < i && band@[j] == v,
        decreases band@.len() - i,
    {
        if band[i] < v {
            v = band[i];
        }
        i += 1;
    }
    v
}

/// The least value of `band` above `v`.
fn next_above(band: &Vec<i64>, v: i64) -> (w: i64)
    requires
        exists|i: int| 0 <= i < band@.len() && band@[i] > v,
    ensures
        w > v,
        exists|i: int| 0 <= i < band@.len() && band@[i] == w,
        forall|i: int| 0 <= i < band@.len() ==> band@[i] <= v || band@[i] >= w,
{
    let mut w: i64 = i64::MAX;
    let mut found: bool = false;
    let mut i: usize = 0;
    while i < band.len()
        invariant
            i <= band@.len(),
            w > v,
            found ==> exists|j: int| 0 <= j < i && band@[j] == w,
            !found ==> w == i64::MAX && forall|j: int| 0 <= j < i ==> band@[j] <= v,
            forall|j: int| 0 <= j < i ==> band@[j] <= v || band@[j] >= w,
        decreases band@.len() - i,
    {
        if band[i] > v && (!found || band[i] < w) {
            w = band[i];
            found = true;
        }
        i += 1;
    }
    w
}

/// The value at position `k` of `band` in ascending order.
pub fn rank_select(band: &Vec<i64>, k: usize) -> (v: i64)
    requires
        k < band@.len(),
    ensures
        is_rank_value(wide(band@), k as int, v as int),
        v == rank_value(wide(band@), k as int),
        exists|i: int| 0 <= i < band@.len() && band@[i] == v,
{
    let ghost s = wide(band@);
    let ghost n = band@.len() as int;
    let mut v: i64 = least_value(band);
    proof {
        assert forall|i: int| 0 <= i < n implies s[i] >= v by {
            assert(s[i] == band@[i]);
        }
        lemma_least_value(s, n, v as int);
    }
    loop
        invariant
            s == wide(band@),
            n == band@.len(),
            k < n,
            count_below(s, n, v as int) <= k,
            exists|i: int| 0 <= i < band@.len() && band@[i] == v,
        decreases n - count_upto(s, n, v as int),
    {
        let at_most = count_at_most(band, v);
        if k < at_most {
            proof {
                lemma_rank_unique(s, k as int, v as int, rank_value(s, k as int));
            }
            return v;
        }
        proof {
            lemma_some_above(s, n, v as int);
            let i = choose|i: int| 0 <= i < n && s[i] > v;
            assert(band@[i] == s[i]);
        }
        let w = next_above(band, v);
        proof {
            let at = choose|i: int| 0 <= i < band@.len() && band@[i] == w;
            assert(s[at] == w);
            assert forall|i: int| 0 <= i < n implies s[i] <= v || s[i] >= w by {
                assert(s[i] == band@[i]);
            }
            lemma_next_value(s, n, v as int, w as int, at);
            lemma_counts_ordered(s, n, w as int, w as int + 1);
        }
        v = w;
    }
}

/// Rank, among `n` sorted values, of the percentile `frac` (in millionths,
/// at most one whole): the nearest position to that share of the way from
/// the first to the last.
pub open spec fn percentile_rank(n: int, frac: int) -> int {
    round_div(min_int(frac, MICRO as int) * (n - 1), MICRO as int)
}

/// The percentile `frac` of `s`; zero for an empty `s`.
pub open spec fn percentile_of(s: Seq<int>, frac: int) -> int {
    if s.len() == 0 {
        0
    } else {
        rank_value(s, percentile_rank(s.len() as int, frac))
    }
}

/// The percentile `frac`, in millionths, of the values.
pub fn percentile(v: &Vec<i64>, frac: u32) -> (p: i64)
    ensures
        p == percentile_of(wide(v@), frac as int),
        v@.len() > 0 ==> exists|i: int| 0 <= i < v@.len() && v@[i] == p,
{
    let n: usize = v.len();
    if n == 0 {
        return 0;
    }
    let share: u128 = if frac > 1_000_000 {
        1_000_000
    } else {
        frac as u128
    };
    let last: u128 = (n - 1) as u128;
    assert(share * last <= 1_000_000 * last) by (nonlinear_arith)
        requires
            0 <= share <= 1_000_000,
            0 <= last,
    ;
    let k: u128 = (2 * (share * last) + 1_000_000) / 2_000_000;
    assert(k <= last);
    rank_select(v, k as usize)
}

/// The median of `s`: its middle value in ascending order, or the mean of
/// the two middle values, rounded down; zero for an empty `s`.
pub open spec fn median_of(s: Seq<int>) -> int {
    if s.len() == 0 {
        0
    } else if s.len() % 2 == 1 {
        rank_value(s, s.len() as int / 2)
    } else {
        (rank_value(s, s.len() as int / 2 - 1) + rank_value(s, s.len() as int / 2)) / 2
    }
}

/// Half of `sum`, rounded down.
fn half_floor(sum: i128) -> (h: i128)
    requires
        -0x1_0000_0000_0000_0000 <= sum <= 0x1_0000_0000_0000_0000,
    ensures
        h == sum as int / 2,
{
    if sum >= 0 {
        ((sum as u128) / 2) as i128
    } else {
        -((((-sum) as u128 + 1) / 2) as i128)
    }
}

/// The median of the values.
pub fn median(v: &Vec<i64>) -> (m: i64)
    ensures
        m == median_of(wide(v@)),
{
    let n: usize = v.len();
    if n == 0 {
        return 0;
    }
    if n % 2 == 1 {
        rank_select(v, n / 2)
    } else {
        let lo = rank_select(v, n / 2 - 1);
        let hi = rank_select(v, n / 2);
        half_floor(lo as i128 + hi as i128) as i64
    }
}

/// `num / den`, rounded towards zero.
pub open spec fn signed_ratio(num: int, den: int) -> int {
    if num >= 0 {
        num / den
    } else {
        -((-num) / den)
    }
}

/// How far each value lies from `m`.
pub open spec fn deviations(s: Seq<int>, m: int) -> Seq<int> {
    Seq::new(
        s.len(),
        |i: int|
            if s[i] >= m {
                s[i] - m
            } else {
                m - s[i]
            },
    )
}

/// The values of features as mathematical integers.
pub open spec fn features(v: Seq<i32>) -> Seq<int> {
    v.map_values(|x: i32| x as int)
}

/// Robust z-score, in thousandths, of a value `d` away from the median of
/// a population whose median absolute deviation is `mad`: `d` over 1.4826
/// times `mad`, which counts as a millionth of a unit where it is zero.
pub open spec fn zscore_from(d: int, mad: int) -> int {
    if mad > 0 {
        signed_ratio(d * 10_000_000, 14_826 * mad)
    } else {
        signed_ratio(d * 10_000_000_000, 14_826)
    }
}

/// Robust z-score of `x` against the population `xs`, all in thousandths;
/// zero for an empty population.
pub open spec fn mad_zscore_of(xs: Seq<int>, x: int) -> int {
    let m = median_of(xs);
    if xs.len() == 0 {
        0
    } else {
        zscore_from(x - m, median_of(deviations(xs, m)))
    }
}

/// Largest magnitude of a z-score of 32-bit features.
pub const ZSCORE_BOUND: i64 = 0x10_0000_0000_0000;

/// The median of a population and its median absolute deviation.
pub fn median_and_mad(xs: &Vec<i32>) -> (out: (i64, i64))
    requires
        xs@.len() > 0,
    ensures
        out.0 == median_of(features(xs@)),
        out.1 == median_of(deviations(features(xs@), out.0 as int)),
        -0x8000_0000 <= out.0 <= 0x7FFF_FFFF,
        0 <= out.1 <= 0xFFFF_FFFF,
{
    let n: usize = xs.len();
    let mut values: Vec<i64> = Vec::new();
    let mut i: usize = 0;
    while i < n
        invariant
            i <= n,
            n == xs@.len(),
            values@.len() == i,
            forall|j: int| 0 <= j < i ==> #[trigger] values@[j] == xs@[j],
        decreases n - i,
    {
        values.push(xs[i] as i64);
        i += 1;
    }
    assert(wide(values@) =~= features(xs@));
    let m = median_bounded_by(&values, -0x8000_0000, 0x7FFF_FFFF);
    let mut devs: Vec<i64> = Vec::new();
    let mut j: usize = 0;
    while j < n
        invariant
            j <= n,
            n == xs@.len(),
            values@.len() == n,
            forall|t: int| 0 <= t < n ==> #[trigger] values@[t] == xs@[t],
            -0x8000_0000 <= m <= 0x7FFF_FFFF,
            devs@.len() == j,
            forall|t: int|
                0 <= t < j ==> #[trigger] devs@[t] == deviations(wide(values@), m as int)[t],
            forall|t: int| 0 <= t < j ==> 0 <= #[trigger] devs@[t] <= 0xFFFF_FFFF,
        decreases n - j,
    {
        let v: i64 = values[j];
        assert(wide(values@)[j as int] == v);
        devs.push(
            if v >= m {
                v - m
            } else {
                m - v
            },
        );
        j += 1;
    }
    assert(wide(devs@) =~= deviations(wide(values@), m as int));
    let mad = median_bounded_by(&devs, 0, 0xFFFF_FFFF);
    (m, mad)
}

/// The z-score of `x` against a population of median `m` and median
/// absolute deviation `mad`.
pub fn zscore_against(m: i64, mad: i64, x: i32) -> (z: i64)
    requires
        -0x8000_0000 <= m <= 0x7FFF_FFFF,
        0 <= mad <= 0xFFFF_FFFF,
    ensures
        z == zscore_from(x - m, mad as int),
        -ZSCORE_BOUND <= z <= ZSCORE_BOUND,
{
    let d: i128 = x as i128 - m as i128;
    let mag: u128 = if d >= 0 {
        d as u128
    } else {
        (-d) as u128
    };
    let q: u128 = if mad > 0 {
        let den: u128 = 14_826 * (mad as u128);
        let q: u128 = mag * 10_000_000 / den;
        assert(q * 14_826 <= mag * 10_000_000) by (nonlinear_arith)
            requires
                q as int == (mag as int * 10_000_000) / (den as int),
                den >= 14_826,
                mag >= 0,
        ;
        q
    } else {
        mag * 10_000_000_000 / 14_826
    };
    if d >= 0 {
        q as i64
    } else {
        -(q as i64)
    }
}

/// Robust z-score of `x` against the population `xs`.
pub fn mad_zscore(xs: &Vec<i32>, x: i32) -> (z: i64)
    ensures
        z == mad_zscore_of(features(xs@), x as int),
        -ZSCORE_BOUND <= z <= ZSCORE_BOUND,
{
    if xs.len() == 0 {
        return 0;
    }
    let (m, mad) = median_and_mad(xs);
    zscore_against(m, mad, x)
}

/// The median of values that all lie within `lo..=hi`, which then lies
/// there too.
fn median_bounded_by(v: &Vec<i64>, lo: i64, hi: i64) -> (m: i64)
    requires
        v@.len() > 0,
        forall|i: int| 0 <= i < v@.len() ==> lo <= #[trigger] v@[i] <= hi,
    ensures
        m == median_of(wide(v@)),
        lo <= m <= hi,
{
    let n: usize = v.len();
    if n % 2 == 1 {
        rank_select(v, n / 2)
    } else {
        let a = rank_select(v, n / 2 - 1);
        let b = rank_select(v, n / 2);
        half_floor(a as i128 + b as i128) as i64
    }
}

} // verus!
