//! Presence estimator: from one reference frame and one microphone frame to
//! a `(distance, strength)` candidate.
//!
//! Both frames are gated by their energy and conditioned alike: the mean is
//! removed and the signal differenced. The conditioned frames are correlated
//! at every lag that the pipeline delay and the echo band allow, each
//! correlation normalised by the norms of the overlapping parts, so that a
//! common scale of the two signals plays no part and they can stay whole
//! numbers. The lag of the largest correlation is taken for the direct path;
//! the largest correlation in the band behind it is the echo, and how far it
//! stands out of the band is its strength.
//!
//! Frames are 16-bit PCM; correlations and the strength are millionths of
//! one, the distance is in millimetres.

use vstd::prelude::*;
use vstd::arithmetic::div_mod::lemma_fundamental_div_mod_converse;
use crate::config::Config;
use crate::stats::{rank_select, rank_value, wide};
use crate::units::{
    clamp_int, isqrt, isqrt_u128, max_int, min_int, round_div, round_div_u128, MICRO,
    SOUND_MM_PER_S,
};

verus! {

/// Frames shorter than this give no estimate.
pub const MIN_FRAME_LEN: usize = 1024;

/// Bound on the delay between the reference and the microphone pipelines.
pub const MAX_PIPELINE_DELAY_MS: u32 = 200;

/// Half-width, in lags, of the neighbourhood that belongs to a peak.
pub const PEAK_NEIGHBORHOOD: usize = 6;

/// Largest magnitude of a conditioned sample.
pub const SIGNAL_BOUND: i32 = 131_070;

/// Sum of the first `n` samples.
pub open spec fn sum_to(s: Seq<i16>, n: int) -> int
    decreases n,
{
    if n <= 0 {
        0
    } else {
        sum_to(s, n - 1) + s[n - 1]
    }
}

/// Sum of the squares of the first `n` samples.
pub open spec fn square_sum_to(s: Seq<i16>, n: int) -> int
    decreases n,
{
    if n <= 0 {
        0
    } else {
        square_sum_to(s, n - 1) + s[n - 1] * s[n - 1]
    }
}

/// The root mean square of the first `n` samples, taken as a fraction of
/// full scale (32768), is below `level` millionths.
pub open spec fn rms_below(s: Seq<i16>, n: int, level: int) -> bool {
    square_sum_to(s, n) * 1_000_000_000_000 < level * level * 1_073_741_824 * n
}

/// The first `n` samples with their mean (rounded down) removed and then
/// differenced against the sample before (the first against silence).
pub open spec fn conditioned(s: Seq<i16>, n: int) -> Seq<int> {
    Seq::new(
        n as nat,
        |i: int|
            if i == 0 {
                s[0] - sum_to(s, n) / n
            } else {
                s[i] - s[i - 1]
            },
    )
}

/// The values of a signal as mathematical integers.
pub open spec fn ints(v: Seq<i32>) -> Seq<int> {
    v.map_values(|x: i32| x as int)
}

/// Every value of the signal is within the bound of a conditioned sample.
pub open spec fn bounded_signal(v: Seq<i32>) -> bool {
    forall|i: int| 0 <= i < v.len() ==> -SIGNAL_BOUND <= #[trigger] v[i] <= SIGNAL_BOUND
}

proof fn lemma_sum_bounds(s: Seq<i16>, n: int)
    requires
        0 <= n <= s.len(),
    ensures
        -32768 * n <= sum_to(s, n) <= 32767 * n,
        0 <= square_sum_to(s, n) <= 1_073_741_824 * n,
    decreases n,
{
    if n > 0 {
        lemma_sum_bounds(s, n - 1);
        let v = s[n - 1] as int;
        assert(0 <= v * v <= 1_073_741_824) by (nonlinear_arith)
            requires
                -32768 <= v <= 32767,
        ;
    }
}

fn sample_sum(x: &[i16], n: usize) -> (total: i128)
    requires
        n <= x@.len(),
    ensures
        total == sum_to(x@, n as int),
        -32768 * n <= total <= 32767 * n,
{
    let len: usize = x.len();
    let mut total: i128 = 0;
    let mut i: usize = 0;
    while i < n
        invariant
            i <= n <= len,
            len == x@.len(),
            total == sum_to(x@, i as int),
            -32768 * i <= total <= 32767 * i,
        decreases n - i,
    {
        total = total + x[i] as i128;
        i += 1;
    }
    total
}

fn sample_square_sum(x: &[i16], n: usize) -> (total: u128)
    requires
        n <= x@.len(),
    ensures
        total == square_sum_to(x@, n as int),
        total <= 1_073_741_824 * n,
{
    let len: usize = x.len();
    let mut total: u128 = 0;
    let mut i: usize = 0;
    while i < n
        invariant
            i <= n <= len,
            len == x@.len(),
            total == square_sum_to(x@, i as int),
            total <= 1_073_741_824 * i,
        decreases n - i,
    {
        let v: i64 = x[i] as i64;
        assert(0 <= v * v <= 1_073_741_824) by (nonlinear_arith)
            requires
                -32768 <= v <= 32767,
        ;
        total = total + (v * v) as u128;
        i += 1;
    }
    total
}

/// How an energy compares with a level.
enum Level {
    Below,
    At,
    Above,
}

/// Compares the root mean square of `n` samples whose squares sum to
/// `energy` with `level` millionths of full scale.
fn compare_level(energy: u128, n: usize, level: u32) -> (side: Level)
    requires
        energy <= 1_073_741_824 * n,
    ensures
        side is Below <==> energy * 1_000_000_000_000 < level * level * 1_073_741_824 * n,
        side is Above <==> energy * 1_000_000_000_000 > level * level * 1_073_741_824 * n,
{
    let lv: u128 = level as u128;
    let count: u128 = n as u128;
    assert(lv * lv <= 0xFFFF_FFFFu128 * 0xFFFF_FFFFu128) by (nonlinear_arith)
        requires
            0 <= lv <= 0xFFFF_FFFF,
    ;
    assert(energy <= 1_073_741_824 * 0xFFFF_FFFF_FFFF_FFFFu128);
    // Both sides hold a factor of 4096, which is taken out of them.
    let lhs: u128 = energy * 244_140_625;
    let unit: u128 = lv * lv * 262_144;
    let ghost left = energy as int * 1_000_000_000_000;
    let ghost right = level as int * level as int * 1_073_741_824 * n as int;
    assert(left == lhs * 4096);
    assert(right == unit * count * 4096) by (nonlinear_arith)
        requires
            right == lv * lv * 1_073_741_824 * count,
            unit == lv * lv * 262_144,
    ;
    if unit == 0 {
        assert(unit * count == 0) by (nonlinear_arith)
            requires
                unit == 0,
        ;
        if lhs > 0 {
            Level::Above
        } else {
            Level::At
        }
    } else {
        let fits: u128 = u128::MAX / unit;
        if count > fits {
            assert(unit * count > u128::MAX) by (nonlinear_arith)
                requires
                    fits as int == (u128::MAX as int) / (unit as int),
                    count >= fits + 1,
                    unit > 0,
            ;
            Level::Below
        } else {
            assert(unit * count <= u128::MAX) by (nonlinear_arith)
                requires
                    fits as int == (u128::MAX as int) / (unit as int),
                    0 <= count <= fits,
                    unit > 0,
            ;
            let rhs: u128 = unit * count;
            if lhs < rhs {
                Level::Below
            } else if lhs > rhs {
                Level::Above
            } else {
                Level::At
            }
        }
    }
}

/// Whether the frame's root mean square is below `level` millionths of full
/// scale.
pub fn rms_is_below(x: &[i16], n: usize, level: u32) -> (below: bool)
    requires
        n <= x@.len(),
    ensures
        below == rms_below(x@, n as int, level as int),
{
    match compare_level(sample_square_sum(x, n), n, level) {
        Level::Below => true,
        _ => false,
    }
}

/// The root mean square of the first `n` samples, taken as a fraction of
/// full scale (32768), is above `level` millionths.
pub open spec fn rms_above(s: Seq<i16>, n: int, level: int) -> bool {
    square_sum_to(s, n) * 1_000_000_000_000 > level * level * 1_073_741_824 * n
}

/// Whether the frame's root mean square is above `level` millionths of full
/// scale.
pub fn rms_is_above(x: &[i16], n: usize, level: u32) -> (above: bool)
    requires
        n <= x@.len(),
    ensures
        above == rms_above(x@, n as int, level as int),
{
    match compare_level(sample_square_sum(x, n), n, level) {
        Level::Above => true,
        _ => false,
    }
}

/// The mean of the first `n` samples, rounded down.
fn floor_mean(x: &[i16], n: usize) -> (mean: i32)
    requires
        1 <= n <= x@.len(),
    ensures
        mean == sum_to(x@, n as int) / (n as int),
        -32768 <= mean <= 32767,
{
    let total = sample_sum(x, n);
    let count: u128 = n as u128;
    if total >= 0 {
        let q: u128 = (total as u128) / count;
        proof {
            let t = total as int;
            let c = count as int;
            assert(q * c <= t) by (nonlinear_arith)
                requires
                    q as int == t / c,
                    c > 0,
                    t >= 0,
            ;
            assert(q <= 32767) by (nonlinear_arith)
                requires
                    q * c <= t,
                    t <= 32767 * c,
                    c > 0,
                    q >= 0,
            ;
        }
        q as i32
    } else {
        let neg: u128 = (-total) as u128;
        let q: u128 = (neg + count - 1) / count;
        proof {
            let t = total as int;
            let c = count as int;
            let qi = q as int;
            let up = neg as int + c - 1;
            assert(qi * c <= up < qi * c + c) by (nonlinear_arith)
                requires
                    qi == up / c,
                    c > 0,
                    up >= 0,
            ;
            let rem = t + qi * c;
            assert(0 <= rem < c);
            assert(t == c * (-qi) + rem) by (nonlinear_arith)
                requires
                    rem == t + qi * c,
            ;
            lemma_fundamental_div_mod_converse(t, c, -qi, rem);
            assert(qi <= 32768) by (nonlinear_arith)
                requires
                    qi * c <= up,
                    up <= 32768 * c + c - 1,
                    c > 0,
                    qi >= 0,
            ;
        }
        -(q as i32)
    }
}

/// Removes the mean, then differences the signal.
fn condition(x: &[i16], n: usize) -> (out: Vec<i32>)
    requires
        1 <= n <= x@.len(),
    ensures
        out@.len() == n,
        ints(out@) == conditioned(x@, n as int),
        bounded_signal(out@),
{
    let mean = floor_mean(x, n);
    let mut out: Vec<i32> = Vec::new();
    out.push(x[0] as i32 - mean);
    let mut i: usize = 1;
    while i < n
        invariant
            1 <= i <= n <= x@.len(),
            out@.len() == i,
            mean == sum_to(x@, n as int) / (n as int),
            forall|j: int| 0 <= j < i ==> #[trigger] out@[j] as int == conditioned(x@, n as int)[j],
            bounded_signal(out@),
        decreases n - i,
    {
        out.push(x[i] as i32 - x[i - 1] as i32);
        i += 1;
    }
    assert(ints(out@) =~= conditioned(x@, n as int));
    out
}

/// Sum of `a[i] * b[i + k]` over the first `m` positions.
pub open spec fn dot(a: Seq<int>, b: Seq<int>, k: int, m: int) -> int
    decreases m,
{
    if m <= 0 {
        0
    } else {
        dot(a, b, k, m - 1) + a[m - 1] * b[m - 1 + k]
    }
}

/// Sum of the squares of `m` values of `a`, starting at `from`.
pub open spec fn energy(a: Seq<int>, from: int, m: int) -> int
    decreases m,
{
    if m <= 0 {
        0
    } else {
        energy(a, from, m - 1) + a[from + m - 1] * a[from + m - 1]
    }
}

/// `num / den` in millionths, rounded towards zero.
pub open spec fn scaled_ratio(num: int, den: int) -> int {
    if num >= 0 {
        num * MICRO as int / den
    } else {
        -((-num) * MICRO as int / den)
    }
}

/// Normalised cross-correlation of `a` against `b` delayed by `k`, in
/// millionths: the inner product of the overlapping parts over the product
/// of their norms (each rounded down, plus one), kept within `[-1, 1]`.
pub open spec fn correlation(a: Seq<int>, b: Seq<int>, k: int) -> int {
    let m = a.len() - k;
    clamp_int(
        scaled_ratio(dot(a, b, k, m), isqrt(energy(a, 0, m)) * isqrt(energy(b, k, m)) + 1),
        -(MICRO as int),
        MICRO as int,
    )
}

/// The correlations at the lags `0..=kmax`.
pub open spec fn correlogram(a: Seq<int>, b: Seq<int>, kmax: int) -> Seq<int> {
    Seq::new((kmax + 1) as nat, |k: int| correlation(a, b, k))
}

/// Every value is a correlation in millionths.
pub open spec fn unit_bounded(v: Seq<i32>) -> bool {
    forall|i: int| 0 <= i < v.len() ==> -(MICRO as int) <= #[trigger] v[i] <= MICRO as int
}

fn correlation_at(a: &Vec<i32>, b: &Vec<i32>, k: usize) -> (r: i32)
    requires
        a@.len() == b@.len(),
        k < a@.len(),
        bounded_signal(a@),
        bounded_signal(b@),
    ensures
        r == correlation(ints(a@), ints(b@), k as int),
        -(MICRO as int) <= r <= MICRO as int,
{
    let len: usize = a.len();
    let m: usize = len - k;
    let mut num: i128 = 0;
    let mut ex: u128 = 0;
    let mut ey: u128 = 0;
    let mut i: usize = 0;
    while i < m
        invariant
            i <= m,
            m == len - k,
            len == a@.len(),
            a@.len() == b@.len(),
            bounded_signal(a@),
            bounded_signal(b@),
            num == dot(ints(a@), ints(b@), k as int, i as int),
            ex == energy(ints(a@), 0, i as int),
            ey == energy(ints(b@), k as int, i as int),
            -17_179_344_900 * i <= num <= 17_179_344_900 * i,
            ex <= 17_179_344_900 * i,
            ey <= 17_179_344_900 * i,
        decreases m - i,
    {
        let xr: i64 = a[i] as i64;
        let yr: i64 = b[i + k] as i64;
        assert(-17_179_344_900 <= xr * yr <= 17_179_344_900 && 0 <= xr * xr <= 17_179_344_900 && 0
            <= yr * yr <= 17_179_344_900) by (nonlinear_arith)
            requires
                -131_070 <= xr <= 131_070,
                -131_070 <= yr <= 131_070,
        ;
        assert(ints(a@)[i as int] == xr);
        assert(ints(b@)[i + k] == yr);
        num = num + (xr * yr) as i128;
        ex = ex + (xr * xr) as u128;
        ey = ey + (yr * yr) as u128;
        i += 1;
    }
    let sx: u128 = isqrt_u128(ex);
    let sy: u128 = isqrt_u128(ey);
    assert(sx * sy <= 0xFFFF_FFFF_FFFF_FFFFu128 * 0xFFFF_FFFF_FFFF_FFFFu128) by (nonlinear_arith)
        requires
            0 <= sx <= 0xFFFF_FFFF_FFFF_FFFF,
            0 <= sy <= 0xFFFF_FFFF_FFFF_FFFF,
    ;
    let den: u128 = sx * sy + 1;
    let size: u128 = if num >= 0 {
        num as u128
    } else {
        (-num) as u128
    };
    assert(size <= 17_179_344_900 * 0xFFFF_FFFF_FFFF_FFFFu128);
    let q: u128 = size * 1_000_000 / den;
    if num >= 0 {
        if q > 1_000_000 {
            1_000_000
        } else {
            q as i32
        }
    } else {
        if q > 1_000_000 {
            -1_000_000
        } else {
            -(q as i32)
        }
    }
}

/// The correlations of `a` against `b` at every lag up to `kmax`.
fn correlate(a: &Vec<i32>, b: &Vec<i32>, kmax: usize) -> (rs: Vec<i32>)
    requires
        a@.len() == b@.len(),
        kmax < a@.len(),
        bounded_signal(a@),
        bounded_signal(b@),
    ensures
        rs@.len() == kmax + 1,
        ints(rs@) == correlogram(ints(a@), ints(b@), kmax as int),
        unit_bounded(rs@),
{
    let n: usize = a.len();
    let mut rs: Vec<i32> = Vec::new();
    let mut k: usize = 0;
    while k <= kmax
        invariant
            k <= kmax + 1,
            a@.len() == b@.len(),
            kmax < n,
            n == a@.len(),
            bounded_signal(a@),
            bounded_signal(b@),
            rs@.len() == k,
            forall|j: int|
                0 <= j < k ==> #[trigger] rs@[j] as int == correlation(ints(a@), ints(b@), j),
            unit_bounded(rs@),
        decreases kmax + 1 - k,
    {
        let r = correlation_at(a, b, k);
        rs.push(r);
        k += 1;
    }
    assert(ints(rs@) =~= correlogram(ints(a@), ints(b@), kmax as int));
    rs
}

/// Lag, in samples, of an echo from `dist_mm` away: the round trip at the
/// speed of sound, rounded to the nearest sample.
pub open spec fn echo_lag(dist_mm: int, sr: int) -> int {
    round_div(2 * dist_mm * sr, SOUND_MM_PER_S as int)
}

/// Largest lag, in samples, that the pipeline delay can cause.
pub open spec fn pipeline_lag(sr: int) -> int {
    round_div(MAX_PIPELINE_DELAY_MS as int * sr, 1000)
}

/// Lag of an echo from `dist_mm` away at `sr` Hz.
pub fn echo_lag_samples(dist_mm: u32, sr: u32) -> (lag: u64)
    ensures
        lag == echo_lag(dist_mm as int, sr as int),
{
    let d: u128 = dist_mm as u128;
    let r: u128 = sr as u128;
    assert(2 * d * r <= 2 * 0xFFFF_FFFFu128 * 0xFFFF_FFFFu128) by (nonlinear_arith)
        requires
            0 <= d <= 0xFFFF_FFFF,
            0 <= r <= 0xFFFF_FFFF,
    ;
    let twice: u128 = 2 * d * r;
    let q: u128 = round_div_u128(twice, 343_000);
    assert(q as int == (2 * twice as int + 343_000) / 686_000);
    assert(q <= 0xFFFF_FFFF_FFFF);
    q as u64
}

/// Largest lag that the pipeline delay can cause at `sr` Hz.
pub fn pipeline_lag_samples(sr: u32) -> (lag: u64)
    ensures
        lag == pipeline_lag(sr as int),
        lag <= sr,
{
    let q: u128 = round_div_u128(200 * (sr as u128), 1000);
    q as u64
}

/// Index of the first largest value among `s[lo..=hi]`.
pub open spec fn first_max(s: Seq<int>, lo: int, hi: int) -> int
    decreases hi - lo,
{
    if hi <= lo {
        lo
    } else {
        let m = first_max(s, lo, hi - 1);
        if s[hi] > s[m] {
            hi
        } else {
            m
        }
    }
}

/// `first_max` is an index of the range whose value none exceeds and none
/// before it reaches.
pub proof fn lemma_first_max(s: Seq<int>, lo: int, hi: int)
    requires
        lo <= hi,
    ensures
        lo <= first_max(s, lo, hi) <= hi,
        forall|j: int| lo <= j <= hi ==> #[trigger] s[j] <= s[first_max(s, lo, hi)],
        forall|j: int| lo <= j < first_max(s, lo, hi) ==> #[trigger] s[j] < s[first_max(s, lo, hi)],
    decreases hi - lo,
{
    if hi > lo {
        lemma_first_max(s, lo, hi - 1);
    }
}

fn argmax(rs: &Vec<i32>, lo: usize, hi: usize) -> (k: usize)
    requires
        lo <= hi < rs@.len(),
    ensures
        k == first_max(ints(rs@), lo as int, hi as int),
        lo <= k <= hi,
{
    let mut best: usize = lo;
    let mut j: usize = lo;
    while j < hi
        invariant
            lo <= best <= j <= hi < rs@.len(),
            best == first_max(ints(rs@), lo as int, j as int),
        decreases hi - j,
    {
        j += 1;
        assert(ints(rs@)[j as int] == rs@[j as int]);
        assert(ints(rs@)[best as int] == rs@[best as int]);
        if rs[j] > rs[best] {
            best = j;
        }
    }
    best
}

/// Lag `i` lies outside the neighbourhood of the peak at `peak`.
pub open spec fn outside_peak(i: int, peak: int) -> bool {
    i + (PEAK_NEIGHBORHOOD as int) < peak || i - (PEAK_NEIGHBORHOOD as int) > peak
}

/// The largest value among `s[lo..=hi]` outside the neighbourhood of
/// `peak`, and zero where none is positive.
pub open spec fn runner_up(s: Seq<int>, lo: int, hi: int, peak: int) -> int
    decreases hi - lo + 1,
{
    if hi < lo {
        0
    } else {
        let rest = runner_up(s, lo, hi - 1, peak);
        if outside_peak(hi, peak) && s[hi] > rest {
            s[hi]
        } else {
            rest
        }
    }
}

/// `runner_up` is not negative, bounds every value outside the peak's
/// neighbourhood, and is zero or one of them.
pub proof fn lemma_runner_up(s: Seq<int>, lo: int, hi: int, peak: int)
    ensures
        runner_up(s, lo, hi, peak) >= 0,
        forall|j: int|
            lo <= j <= hi && outside_peak(j, peak) ==> #[trigger] s[j] <= runner_up(s, lo, hi, peak),
        runner_up(s, lo, hi, peak) == 0 || exists|j: int|
            lo <= j <= hi && outside_peak(j, peak) && #[trigger] s[j] == runner_up(s, lo, hi, peak),
    decreases hi - lo + 1,
{
    if hi >= lo {
        lemma_runner_up(s, lo, hi - 1, peak);
    }
}

fn second_best(rs: &Vec<i32>, lo: usize, hi: usize, peak: usize) -> (v: i32)
    requires
        lo <= hi < rs@.len(),
    ensures
        v == runner_up(ints(rs@), lo as int, hi as int, peak as int),
        v >= 0,
{
    let n: usize = rs.len();
    let mut best: i32 = 0;
    let mut j: usize = lo;
    while j <= hi
        invariant
            lo <= j <= hi + 1,
            hi < n,
            n == rs@.len(),
            best >= 0,
            best == runner_up(ints(rs@), lo as int, j as int - 1, peak as int),
        decreases hi + 1 - j,
    {
        assert(ints(rs@)[j as int] == rs@[j as int]);
        let out: bool = (peak >= PEAK_NEIGHBORHOOD && j < peak - PEAK_NEIGHBORHOOD) || (j
            >= PEAK_NEIGHBORHOOD && j - PEAK_NEIGHBORHOOD > peak);
        if out && rs[j] > best {
            best = rs[j];
        }
        j += 1;
    }
    best
}

/// Position, in a band of `len` sorted values, of the `pct`-th percentile.
pub open spec fn percentile_index(len: int, pct: int) -> int {
    min_int(len * pct / 100, len - 1)
}

/// How far the best echo-band correlation `peak` rises above the
/// runner-up, relative to the spread between the 75th and 95th percentiles
/// of the band (at least one millionth), kept within one and halved when the
/// peak is below the 75th percentile.
pub open spec fn prominence(peak: int, second: int, p75: int, p95: int) -> int {
    let ceiling = max_int(p95, p75 + 1);
    let lift = max_int(peak - second, 0);
    let full = min_int(lift * MICRO as int / (ceiling - p75), MICRO as int);
    if peak < p75 {
        full / 2
    } else {
        full
    }
}

/// Distance, in millimetres, of an echo `delta` samples behind the direct
/// path, capped at `cap`.
pub open spec fn echo_distance(delta: int, sr: int, cap: int) -> int {
    min_int(round_div(delta * SOUND_MM_PER_S as int, 2 * sr), cap)
}

/// The candidate read off a correlogram: the direct path is the first
/// largest correlation, the echo the first largest one in the band behind
/// it; no candidate when the band is empty or a single lag.
pub open spec fn echo_of(rs: Seq<int>, min_echo: int, max_echo: int, sr: int, dist_max: int)
    -> Option<(u32, u32)> {
    if rs.len() == 0 || sr <= 0 {
        None
    } else {
        let kmax = rs.len() - 1;
        let k0 = first_max(rs, 0, kmax);
        let start = k0 + min_echo;
        let end = min_int(k0 + max_echo, kmax);
        if start >= end {
            None
        } else {
            let k1 = first_max(rs, start, end);
            let band = rs.subrange(start, end + 1);
            let p75 = rank_value(band, percentile_index(band.len() as int, 75));
            let p95 = rank_value(band, percentile_index(band.len() as int, 95));
            Some(
                (
                    echo_distance(k1 - k0, sr, dist_max) as u32,
                    prominence(rs[k1], runner_up(rs, start, end, k1), p75, p95) as u32,
                ),
            )
        }
    }
}

fn prominence_of(peak: i32, second: i32, p75: i64, p95: i64) -> (p: u32)
    requires
        -0x8000_0000 <= p75 <= 0x7FFF_FFFF,
        -0x8000_0000 <= p95 <= 0x7FFF_FFFF,
    ensures
        p == prominence(peak as int, second as int, p75 as int, p95 as int),
        p <= MICRO,
{
    let floor: i64 = p75;
    let ceiling: i64 = if p95 > floor + 1 {
        p95
    } else {
        floor + 1
    };
    let spread: u64 = (ceiling - floor) as u64;
    let lift: u64 = if peak as i64 > second as i64 {
        (peak as i64 - second as i64) as u64
    } else {
        0
    };
    let q: u64 = lift * 1_000_000 / spread;
    let full: u32 = if q > 1_000_000 {
        1_000_000
    } else {
        q as u32
    };
    if (peak as i64) < p75 {
        full / 2
    } else {
        full
    }
}

fn distance_of(delta: usize, sr: u32, cap: u32) -> (d: u32)
    requires
        sr > 0,
    ensures
        d == echo_distance(delta as int, sr as int, cap as int),
        d <= cap,
{
    let span: u128 = (delta as u128) * 343_000;
    let q: u128 = round_div_u128(span, 2 * (sr as u128));
    if q > cap as u128 {
        cap
    } else {
        q as u32
    }
}

fn percentile_position(len: usize, pct: u8) -> (at: usize)
    requires
        len > 0,
        pct <= 100,
    ensures
        at == percentile_index(len as int, pct as int),
        at < len,
{
    let wide: u128 = len as u128;
    let share: u128 = pct as u128;
    assert(wide * share <= 0xFFFF_FFFF_FFFF_FFFFu128 * 100) by (nonlinear_arith)
        requires
            0 <= wide <= 0xFFFF_FFFF_FFFF_FFFF,
            0 <= share <= 100,
    ;
    let raw: u128 = wide * share / 100;
    if raw >= len as u128 {
        len - 1
    } else {
        raw as usize
    }
}

fn copy_band(rs: &Vec<i32>, start: usize, end: usize) -> (band: Vec<i64>)
    requires
        start <= end < rs@.len(),
    ensures
        band@.len() == end + 1 - start,
        wide(band@) == ints(rs@).subrange(start as int, end + 1),
        forall|j: int| 0 <= j < band@.len() ==> -0x8000_0000 <= #[trigger] band@[j] <= 0x7FFF_FFFF,
{
    let n: usize = rs.len();
    let mut band: Vec<i64> = Vec::new();
    let mut i: usize = start;
    while i <= end
        invariant
            start <= i <= end + 1,
            end < n,
            n == rs@.len(),
            band@.len() == i - start,
            forall|j: int| 0 <= j < band@.len() ==> #[trigger] band@[j] == rs@[start + j],
        decreases end + 1 - i,
    {
        band.push(rs[i] as i64);
        i += 1;
    }
    assert(wide(band@) =~= ints(rs@).subrange(start as int, end + 1));
    band
}

/// Reads the `(distance, strength)` candidate off the correlations at the
/// lags `0..rs.len()`.
pub fn pick_echo(rs: &Vec<i32>, min_echo: usize, max_echo: usize, sr: u32, dist_max_mm: u32) -> (vote:
    Option<(u32, u32)>)
    ensures
        vote == echo_of(
            ints(rs@),
            min_echo as int,
            max_echo as int,
            sr as int,
            dist_max_mm as int,
        ),
        vote matches Some((d, s)) ==> d <= dist_max_mm && s <= MICRO,
{
    if rs.len() == 0 || sr == 0 {
        return None;
    }
    let kmax: usize = rs.len() - 1;
    let k0 = argmax(rs, 0, kmax);
    let room: usize = kmax - k0;
    if min_echo >= room {
        return None;
    }
    let start: usize = k0 + min_echo;
    let end: usize = if max_echo >= room {
        kmax
    } else {
        k0 + max_echo
    };
    if start >= end {
        return None;
    }
    let k1 = argmax(rs, start, end);
    let second = second_best(rs, start, end, k1);
    let band = copy_band(rs, start, end);
    let p75 = rank_select(&band, percentile_position(band.len(), 75));
    let p95 = rank_select(&band, percentile_position(band.len(), 95));
    assert(ints(rs@)[k1 as int] == rs@[k1 as int]);
    let strength = prominence_of(rs[k1], second, p75, p95);
    let distance = distance_of(k1 - k0, sr, dist_max_mm);
    Some((distance, strength))
}

/// What `estimate_from_ref` returns: nothing for frames shorter than 1024
/// samples, for frames in which both sources are below their energy gates,
/// or for an echo band that is empty or does not fit the frame; otherwise
/// the candidate read off the correlogram of the conditioned frames.
pub open spec fn estimate(x_ref: Seq<i16>, x_mic: Seq<i16>, sr: int, cfg: Config) -> Option<
    (u32, u32),
> {
    let n = min_int(x_ref.len() as int, x_mic.len() as int);
    let min_echo = echo_lag(cfg.front_min_mm as int, sr);
    let max_echo = echo_lag(cfg.front_max_mm as int, sr);
    if n < MIN_FRAME_LEN {
        None
    } else if rms_below(x_mic, n, cfg.min_rms as int) && rms_below(
        x_ref,
        n,
        cfg.min_ref_rms as int,
    ) {
        None
    } else if max_echo <= min_echo || max_echo >= n {
        None
    } else {
        let kmax = min_int(pipeline_lag(sr) + max_echo, n - 1);
        echo_of(
            correlogram(conditioned(x_ref, n), conditioned(x_mic, n), kmax),
            min_echo,
            max_echo,
            sr,
            cfg.dist_max_mm as int,
        )
    }
}

/// Whatever the frames, an estimate is no farther than the distance cap and
/// its strength is a fraction of one.
pub proof fn lemma_estimate_in_range(x_ref: Seq<i16>, x_mic: Seq<i16>, rate: u32, cfg: Config)
    ensures
        estimate(x_ref, x_mic, rate as int, cfg) matches Some((d, s)) ==> d <= cfg.dist_max_mm
            && s <= MICRO,
{
    let sr = rate as int;
    if estimate(x_ref, x_mic, sr, cfg) is Some {
        let n = min_int(x_ref.len() as int, x_mic.len() as int);
        let min_echo = echo_lag(cfg.front_min_mm as int, sr);
        let max_echo = echo_lag(cfg.front_max_mm as int, sr);
        let kmax = min_int(pipeline_lag(sr) + max_echo, n - 1);
        let rs = correlogram(conditioned(x_ref, n), conditioned(x_mic, n), kmax);
        let top = rs.len() - 1;
        let k0 = first_max(rs, 0, top);
        let start = k0 + min_echo;
        let end = min_int(k0 + max_echo, top);
        let k1 = first_max(rs, start, end);
        assert(min_echo >= 0) by (nonlinear_arith)
            requires
                min_echo == (2 * (2 * cfg.front_min_mm as int * sr) + 343_000) / 686_000int,
                cfg.front_min_mm >= 0,
                sr >= 0,
        ;
        lemma_first_max(rs, 0, top);
        lemma_first_max(rs, start, end);
        let delta = k1 - k0;
        assert(round_div(delta * 343_000, 2 * sr) >= 0) by (nonlinear_arith)
            requires
                delta >= 0,
                sr > 0,
        ;
        let band = rs.subrange(start, end + 1);
        let p75 = rank_value(band, percentile_index(band.len() as int, 75));
        let p95 = rank_value(band, percentile_index(band.len() as int, 95));
        let second = runner_up(rs, start, end, k1);
        let ceiling = max_int(p95, p75 + 1);
        let lift = max_int(rs[k1] - second, 0);
        assert(lift * 1_000_000 / (ceiling - p75) >= 0) by (nonlinear_arith)
            requires
                lift >= 0,
                ceiling - p75 >= 1,
        ;
    }
}

proof fn lemma_no_energy(s: Seq<i16>, n: int)
    requires
        0 <= n <= s.len(),
        forall|k: int| 0 <= k < s.len() ==> s[k] == 0,
    ensures
        square_sum_to(s, n) == 0,
    decreases n,
{
    if n > 0 {
        lemma_no_energy(s, n - 1);
    }
}

/// Frames of silence give no estimate where both energy gates are above
/// zero.
pub proof fn lemma_silent_frames(x_ref: Seq<i16>, x_mic: Seq<i16>, sr: int, cfg: Config)
    requires
        cfg.min_rms > 0,
        cfg.min_ref_rms > 0,
        forall|k: int| 0 <= k < x_ref.len() ==> x_ref[k] == 0,
        forall|k: int| 0 <= k < x_mic.len() ==> x_mic[k] == 0,
    ensures
        estimate(x_ref, x_mic, sr, cfg) is None,
{
    let n = min_int(x_ref.len() as int, x_mic.len() as int);
    if n >= MIN_FRAME_LEN {
        lemma_no_energy(x_ref, n);
        lemma_no_energy(x_mic, n);
        let a = cfg.min_rms as int;
        let b = cfg.min_ref_rms as int;
        assert(a * a * 1_073_741_824 * n > 0 && b * b * 1_073_741_824 * n > 0) by (nonlinear_arith)
            requires
                a > 0,
                b > 0,
                n > 0,
        ;
    }
}

/// Estimates `(distance_mm, strength)` from a reference frame and a
/// microphone frame captured at `sr` Hz; only the common leading part of
/// the two frames is used.
pub fn estimate_from_ref(x_ref: &[i16], x_mic: &[i16], sr: u32, config: &Config) -> (vote: Option<
    (u32, u32),
>)
    ensures
        vote == estimate(x_ref@, x_mic@, sr as int, *config),
        vote matches Some((d, s)) ==> d <= config.dist_max_mm && s <= MICRO,
        x_ref@.len() < MIN_FRAME_LEN || x_mic@.len() < MIN_FRAME_LEN ==> vote is None,
{
    let n: usize = if x_ref.len() <= x_mic.len() {
        x_ref.len()
    } else {
        x_mic.len()
    };
    if n < MIN_FRAME_LEN {
        return None;
    }
    if rms_is_below(x_mic, n, config.min_rms) && rms_is_below(x_ref, n, config.min_ref_rms) {
        return None;
    }
    let min_echo = echo_lag_samples(config.front_min_mm, sr);
    let max_echo = echo_lag_samples(config.front_max_mm, sr);
    if max_echo <= min_echo || max_echo >= n as u64 {
        return None;
    }
    let reach: u128 = pipeline_lag_samples(sr) as u128 + max_echo as u128;
    let kmax: usize = if reach >= n as u128 {
        n - 1
    } else {
        reach as usize
    };
    let a = condition(x_ref, n);
    let b = condition(x_mic, n);
    let rs = correlate(&a, &b, kmax);
    pick_echo(&rs, min_echo as usize, max_echo as usize, sr, config.dist_max_mm)
}

} // verus!
