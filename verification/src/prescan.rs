//! Pre-scan of a track: how its analysis windows are laid out, how they are
//! scored against each other, and which of them become segments.
//!
//! Features, z-scores and scores are thousandths of their unit; times are
//! milliseconds.

use vstd::prelude::*;
use crate::stats::{
    features, mad_zscore_of, median_and_mad, percentile, percentile_of, signed_ratio, wide,
    zscore_against, ZSCORE_BOUND,
};
use vstd::arithmetic::div_mod::lemma_div_multiples_vanish_quotient;
use crate::estimator::square_sum_to;
use crate::units::{
    is_isqrt, isqrt, isqrt_u64, lemma_next_pow2, max_int, min_int, next_pow2, next_pow2_u64, round_div, round_div_u128,
    wide_product, MICRO,
};

verus! {

/// Options of a scan.
#[derive(Clone, Copy, Debug, PartialEq, Eq, Structural)]
pub struct ScanParams {
    /// Sample rate, in Hz.
    pub sr: u32,
    pub frame_ms: u32,
    pub window_ms: u32,
    pub stride_ms: u32,
    pub hf_split_hz: u32,
    /// Largest number of windows that are kept.
    pub top_n: usize,
    /// Percentile of all scores that a kept window must reach, in millionths.
    pub min_percentile: u32,
    pub nms_radius_ms: u32,
    pub merge_gap_ms: u32,
    pub clamp_min_ms: u32,
    pub clamp_max_ms: u32,
}

/// Robust z-scores of a window's features.
#[derive(Clone, Copy, Debug, PartialEq, Eq, Structural)]
pub struct FeatZ {
    pub flux_z: i64,
    pub flatness_z: i64,
    pub crest_z: i64,
    pub bandwidth_z: i64,
    pub hf_ratio_z: i64,
    pub dynrange_z: i64,
    pub tonality_z: i64,
}

/// One analysis window and what was measured in it.
#[derive(Clone, Copy, Debug, PartialEq, Eq, Structural)]
pub struct WindowFeat {
    pub start_ms: u32,
    pub end_ms: u32,
    pub flux: i32,
    pub flatness: i32,
    pub crest_db: i32,
    pub bandwidth_hz_95: i32,
    pub hf_ratio: i32,
    pub dyn_range: i32,
    pub tonality: i32,
    pub loudness_dbfs: i32,
    pub score: i64,
    pub z: FeatZ,
}

/// A stretch of the track worth listening in, with its best window.
#[derive(Clone, Copy, Debug, PartialEq, Eq, Structural)]
pub struct Segment {
    pub start_ms: u64,
    pub end_ms: u64,
    pub peak: WindowFeat,
}

/// How the frames and windows of a scan are laid out, in samples and
/// frames.
#[derive(Clone, Copy, Debug, PartialEq, Eq, Structural)]
pub struct ScanLayout {
    /// Length of one frame, a power of two.
    pub frame_len: usize,
    /// Distance between the starts of two frames.
    pub hop_len: usize,
    /// Number of frames in the track.
    pub frames: usize,
    /// Frames in one window.
    pub frames_per_win: usize,
    /// Frames from one window to the next.
    pub stride_frames: usize,
    /// Number of windows.
    pub windows: usize,
    /// First spectrum bin that counts as high frequency.
    pub hf_bin: usize,
}

/// Length of a scan frame: `frame_ms` milliseconds to the nearest sample,
/// at least 256, rounded up to a power of two.
pub open spec fn scan_frame_len(sr: int, frame_ms: int) -> int {
    next_pow2(max_int(round_div(sr * frame_ms, 1000), 256))
}

/// Number of frames that `ms` milliseconds span, to the nearest frame and
/// at least one.
pub open spec fn frames_in(ms: int, sr: int, hop_len: int) -> int {
    max_int(round_div(ms * sr, 1000 * hop_len), 1)
}

/// The layout of a scan of `len` samples; none for less than a second of
/// audio, and none where no frame or no window fits. Bins from `hf_bin` on
/// count as high frequency; a split above the spectrum leaves none. A
/// stride longer than the track counts as the track's length.
pub open spec fn layout_of(len: int, p: ScanParams) -> Option<ScanLayout> {
    let frame_len = scan_frame_len(p.sr as int, p.frame_ms as int);
    let hop_len = frame_len / 2;
    let frames = (len - frame_len) / hop_len + 1;
    let frames_per_win = frames_in(p.window_ms as int, p.sr as int, hop_len);
    let stride_frames = min_int(frames_in(p.stride_ms as int, p.sr as int, hop_len), frames);
    if p.sr == 0 || len < p.sr || len < frame_len || frames < frames_per_win {
        None
    } else {
        Some(
            ScanLayout {
                frame_len: frame_len as usize,
                hop_len: hop_len as usize,
                frames: frames as usize,
                frames_per_win: frames_per_win as usize,
                stride_frames: stride_frames as usize,
                windows: ((frames - frames_per_win) / stride_frames + 1) as usize,
                hf_bin: min_int(p.hf_split_hz as int * frame_len / p.sr as int, frame_len) as usize,
            },
        )
    }
}

fn frames_spanning(ms: u32, sr: u32, hop_len: u64) -> (n: u64)
    requires
        1 <= hop_len,
    ensures
        n == frames_in(ms as int, sr as int, hop_len as int),
        n >= 1,
{
    let span: u128 = wide_product(ms, sr) as u128;
    let q: u128 = round_div_u128(span, 1000 * (hop_len as u128));
    assert(q <= span + 1) by (nonlinear_arith)
        requires
            q as int == (2 * span as int + 1000 * hop_len as int) / (2 * (1000 * hop_len as int)),
            hop_len >= 1,
            span >= 0,
    ;
    if q > 1 {
        q as u64
    } else {
        1
    }
}

/// Lays out the scan of a track of `len` samples.
pub fn scan_layout(len: usize, p: &ScanParams) -> (layout: Option<ScanLayout>)
    ensures
        layout == layout_of(len as int, *p),
        layout matches Some(l) ==> l.hop_len >= 1 && l.stride_frames >= 1 && l.frames_per_win >= 1
            && l.windows >= 1 && (l.windows - 1) * l.stride_frames + l.frames_per_win <= l.frames
            && (l.frames - 1) * l.hop_len + l.frame_len <= len,
{
    if p.sr == 0 || (len as u64) < p.sr as u64 {
        return None;
    }
    let product: u64 = wide_product(p.sr, p.frame_ms);
    let target: u128 = round_div_u128(product as u128, 1000);
    assert(target as int == (2 * product as int + 1000) / 2000);
    assert(target <= 0x7FFF_FFFF_FFFF_FFFF);
    let wanted: u64 = if target > 256 {
        target as u64
    } else {
        256
    };
    proof {
        lemma_next_pow2(wanted as int);
    }
    let frame_wide: u64 = next_pow2_u64(wanted);
    if (len as u64) < frame_wide {
        return None;
    }
    let frame_len: usize = frame_wide as usize;
    let hop_len: usize = frame_len / 2;
    let frames: usize = (len - frame_len) / hop_len + 1;
    let fpw: u64 = frames_spanning(p.window_ms, p.sr, hop_len as u64);
    let stride: u64 = frames_spanning(p.stride_ms, p.sr, hop_len as u64);
    if (frames as u64) < fpw {
        return None;
    }
    let frames_per_win: usize = fpw as usize;
    let room: usize = frames - frames_per_win;
    let stride_frames: usize = if stride > frames as u64 {
        frames
    } else {
        stride as usize
    };
    let windows: usize = room / stride_frames + 1;
    let split: u128 = p.hf_split_hz as u128;
    let width: u128 = frame_wide as u128;
    assert(split * width <= 0xFFFF_FFFFu128 * 0xFFFF_FFFF_FFFF_FFFF) by (nonlinear_arith)
        requires
            0 <= split <= 0xFFFF_FFFF,
            0 <= width <= 0xFFFF_FFFF_FFFF_FFFF,
    ;
    let hf: u128 = split * width / (p.sr as u128);
    let hf_bin: usize = if hf > frame_len as u128 {
        frame_len
    } else {
        hf as usize
    };
    proof {
        let span = len - frame_len;
        let h = hop_len as int;
        assert((frames - 1) * h <= span) by (nonlinear_arith)
            requires
                frames - 1 == span / h,
                h > 0,
                span >= 0,
        ;
        let s = stride_frames as int;
        assert((windows - 1) * s <= room) by (nonlinear_arith)
            requires
                windows - 1 == (room as int) / s,
                s > 0,
                room >= 0,
        ;
    }
    Some(
        ScanLayout {
            frame_len,
            hop_len,
            frames,
            frames_per_win,
            stride_frames,
            windows,
            hf_bin,
        },
    )
}

/// The frames of window `k`: its first frame, its middle frame, and the
/// frame behind its last.
pub open spec fn window_frames_of(k: int, l: ScanLayout) -> (int, int, int) {
    let first = k * l.stride_frames;
    (first, first + l.frames_per_win / 2, first + l.frames_per_win)
}

/// The windows of the layout lie within its frames.
pub open spec fn windows_fit(l: ScanLayout) -> bool {
    &&& l.windows >= 1
    &&& (l.windows - 1) * l.stride_frames + l.frames_per_win <= l.frames
}

/// The frames that window `k` spans.
pub fn window_frames(k: usize, l: &ScanLayout) -> (span: (usize, usize, usize))
    requires
        k < l.windows,
        windows_fit(*l),
    ensures
        (span.0 as int, span.1 as int, span.2 as int) == window_frames_of(k as int, *l),
        span.0 <= span.1 <= span.2 <= l.frames,
{
    assert(k * l.stride_frames <= (l.windows - 1) * l.stride_frames) by (nonlinear_arith)
        requires
            0 <= k <= l.windows - 1,
            0 <= l.stride_frames,
    ;
    let first: usize = k * l.stride_frames;
    (first, first + l.frames_per_win / 2, first + l.frames_per_win)
}

/// Time at which frame `frame` starts, in milliseconds.
pub open spec fn frame_time_ms(frame: int, hop_len: int, sr: int) -> int {
    round_div(frame * hop_len * 1000, sr)
}

/// Start and end of window `k`, in milliseconds.
pub open spec fn window_span_of(k: int, l: ScanLayout, sr: int) -> (int, int) {
    let start = frame_time_ms(k * l.stride_frames, l.hop_len as int, sr);
    (start, start + frame_time_ms(l.frames_per_win as int, l.hop_len as int, sr))
}

/// Start and end of window `k`; none where they do not fit 32 bits.
pub fn window_span(k: usize, l: &ScanLayout, sr: u32) -> (span: Option<(u32, u32)>)
    requires
        k < l.windows,
        windows_fit(*l),
        sr > 0,
        l.frames * l.hop_len <= usize::MAX,
    ensures
        span is Some <==> window_span_of(k as int, *l, sr as int).1 <= u32::MAX,
        span matches Some((a, b)) ==> (a as int, b as int) == window_span_of(
            k as int,
            *l,
            sr as int,
        ),
{
    let (first, _, _) = window_frames(k, l);
    let hop: u128 = l.hop_len as u128;
    let rate: u128 = sr as u128;
    let total: u128 = (l.frames as u128) * hop;
    assert((first as u128) * hop <= total && (l.frames_per_win as u128) * hop <= total)
        by (nonlinear_arith)
        requires
            0 <= first <= l.frames,
            0 <= l.frames_per_win <= l.frames,
            total == l.frames * hop,
            hop >= 0,
    ;
    let start: u128 = round_div_u128((first as u128) * hop * 1000, rate);
    let len: u128 = round_div_u128((l.frames_per_win as u128) * hop * 1000, rate);
    assert(start <= 0xFFFF_FFFF_FFFF_FFFF * 1000 + 1 && len <= 0xFFFF_FFFF_FFFF_FFFF * 1000 + 1)
        by (nonlinear_arith)
        requires
            start as int == (2 * (first * hop * 1000) + rate) / (2 * rate),
            len as int == (2 * (l.frames_per_win * hop * 1000) + rate) / (2 * rate),
            rate >= 1,
            0 <= first * hop <= 0xFFFF_FFFF_FFFF_FFFF,
            0 <= l.frames_per_win * hop <= 0xFFFF_FFFF_FFFF_FFFF,
    ;
    if start + len > u32::MAX as u128 {
        None
    } else {
        Some((start as u32, (start + len) as u32))
    }
}

/// Power of the first `n` bins.
pub open spec fn power_to(power: Seq<u64>, n: int) -> int
    decreases n,
{
    if n <= 0 {
        0
    } else {
        power_to(power, n - 1) + power[n - 1]
    }
}

/// `r` is the bin at which the running power first reaches 95% of the
/// whole; bin zero for an empty spectrum.
pub open spec fn is_rolloff(power: Seq<u64>, r: int) -> bool {
    if power.len() == 0 {
        r == 0
    } else {
        &&& 0 <= r < power.len()
        &&& 100 * power_to(power, r + 1) >= 95 * power_to(power, power.len() as int)
        &&& forall|j: int|
            0 <= j < r ==> 100 * #[trigger] power_to(power, j + 1) < 95 * power_to(
                power,
                power.len() as int,
            )
    }
}

proof fn lemma_power_bounds(power: Seq<u64>, n: int, m: int)
    requires
        0 <= n <= m <= power.len(),
    ensures
        0 <= power_to(power, n) <= power_to(power, m) <= m * 0xFFFF_FFFF_FFFF_FFFF,
    decreases m,
{
    if m > n {
        lemma_power_bounds(power, n, m - 1);
    } else if m > 0 {
        lemma_power_bounds(power, n - 1, m - 1);
    }
}

fn total_power(power: &[u64], from: usize) -> (total: u128)
    requires
        from <= power@.len(),
    ensures
        total == power_to(power@, power@.len() as int) - power_to(power@, from as int),
{
    let n: usize = power.len();
    let mut total: u128 = 0;
    let mut k: usize = from;
    proof {
        lemma_power_bounds(power@, from as int, n as int);
    }
    while k < n
        invariant
            from <= k <= n,
            n == power@.len(),
            total == power_to(power@, k as int) - power_to(power@, from as int),
        decreases n - k,
    {
        proof {
            lemma_power_bounds(power@, from as int, k as int);
            lemma_power_bounds(power@, from as int, k + 1);
            lemma_power_bounds(power@, k + 1, n as int);
            assert(n * 0xFFFF_FFFF_FFFF_FFFF <= 0xFFFF_FFFF_FFFF_FFFF * 0xFFFF_FFFF_FFFF_FFFF)
                by (nonlinear_arith)
                requires
                    0 <= n <= 0xFFFF_FFFF_FFFF_FFFF,
            ;
        }
        total = total + power[k] as u128;
        k += 1;
    }
    total
}

/// The roll-off bin of a power spectrum.
pub fn rolloff_bin(power: &[u64]) -> (r: usize)
    ensures
        is_rolloff(power@, r as int),
{
    let n: usize = power.len();
    if n == 0 {
        return 0;
    }
    let total: u128 = total_power(power, 0);
    let need: u128 = total - total / 20;
    let mut cum: u128 = 0;
    let mut k: usize = 0;
    while k < n
        invariant
            k <= n,
            n == power@.len(),
            n > 0,
            total == power_to(power@, n as int),
            need == total - total / 20,
            cum == power_to(power@, k as int),
            forall|j: int| 0 <= j < k ==> 100 * #[trigger] power_to(power@, j + 1) < 95 * total,
        decreases n - k,
    {
        proof {
            lemma_power_bounds(power@, k + 1, n as int);
        }
        cum = cum + power[k] as u128;
        if cum >= need {
            return k;
        }
        k += 1;
    }
    // The whole spectrum holds all of its power.
    proof {
        assert(100 * power_to(power@, (n - 1) + 1) < 95 * total);
        lemma_power_bounds(power@, 0, n as int);
    }
    n - 1
}

/// Share of the power at or above bin `hf_bin`, in millionths; zero for a
/// spectrum without power.
pub open spec fn hf_share_of(power: Seq<u64>, hf_bin: int) -> int {
    let total = power_to(power, power.len() as int);
    let high = total - power_to(power, min_int(hf_bin, power.len() as int));
    if total == 0 {
        0
    } else {
        high * MICRO as int / total
    }
}

/// Share of the power at or above a bin.
pub fn hf_share(power: &[u64], hf_bin: usize) -> (share: u32)
    requires
        power@.len() <= u32::MAX,
    ensures
        share == hf_share_of(power@, hf_bin as int),
        share <= MICRO,
{
    let n: usize = power.len();
    let from: usize = if hf_bin < n {
        hf_bin
    } else {
        n
    };
    let total: u128 = total_power(power, 0);
    let high: u128 = total_power(power, from);
    proof {
        lemma_power_bounds(power@, from as int, n as int);
        assert(n * 0xFFFF_FFFF_FFFF_FFFF <= 0xFFFF_FFFF * 0xFFFF_FFFF_FFFF_FFFF) by (nonlinear_arith)
            requires
                0 <= n <= 0xFFFF_FFFF,
        ;
    }
    if total == 0 {
        return 0;
    }
    let q: u128 = high * 1_000_000 / total;
    assert(q <= 1_000_000) by (nonlinear_arith)
        requires
            q as int == (high as int * 1_000_000) / (total as int),
            0 <= high <= total,
            total > 0,
    ;
    q as u32
}

/// The features that are scored.
#[derive(Clone, Copy, Debug, PartialEq, Eq, Structural)]
pub enum Feature {
    Flux,
    Flatness,
    Crest,
    Bandwidth,
    HfRatio,
    DynRange,
    Tonality,
}

/// The value of one feature of a window.
pub open spec fn feature_of(w: WindowFeat, which: Feature) -> i32 {
    match which {
        Feature::Flux => w.flux,
        Feature::Flatness => w.flatness,
        Feature::Crest => w.crest_db,
        Feature::Bandwidth => w.bandwidth_hz_95,
        Feature::HfRatio => w.hf_ratio,
        Feature::DynRange => w.dyn_range,
        Feature::Tonality => w.tonality,
    }
}

/// The values of one feature over all windows.
pub open spec fn population_of(wins: Seq<WindowFeat>, which: Feature) -> Seq<i32> {
    Seq::new(wins.len(), |i: int| feature_of(wins[i], which))
}

/// The z-score of a window's feature against all windows.
pub open spec fn feature_z(wins: Seq<WindowFeat>, w: WindowFeat, which: Feature) -> int {
    mad_zscore_of(features(population_of(wins, which)), feature_of(w, which) as int)
}

/// The z-scores of a window against all windows.
pub open spec fn z_of(wins: Seq<WindowFeat>, w: WindowFeat) -> FeatZ {
    FeatZ {
        flux_z: feature_z(wins, w, Feature::Flux) as i64,
        flatness_z: feature_z(wins, w, Feature::Flatness) as i64,
        crest_z: feature_z(wins, w, Feature::Crest) as i64,
        bandwidth_z: feature_z(wins, w, Feature::Bandwidth) as i64,
        hf_ratio_z: feature_z(wins, w, Feature::HfRatio) as i64,
        dynrange_z: feature_z(wins, w, Feature::DynRange) as i64,
        tonality_z: feature_z(wins, w, Feature::Tonality) as i64,
    }
}

/// The score of a window: a fixed weighting of its z-scores (flux 0.25,
/// flatness 0.2, crest 0.2, bandwidth 0.15, high-frequency share 0.1, dynamic
/// range 0.1, tonality -0.2), less 0.5 for a loudness below -45 dBFS and 1.0
/// more below -60 dBFS.
pub open spec fn score_of(z: FeatZ, loudness_dbfs: int) -> int {
    signed_ratio(
        25 * z.flux_z + 20 * z.flatness_z + 20 * z.crest_z + 15 * z.bandwidth_z + 10
            * z.hf_ratio_z + 10 * z.dynrange_z - 20 * z.tonality_z,
        100,
    ) - (if loudness_dbfs < -45_000 {
        500int
    } else {
        0int
    }) - (if loudness_dbfs < -60_000 {
        1000int
    } else {
        0int
    })
}

/// Every z-score is within the bound of 32-bit features.
pub open spec fn z_bounded(z: FeatZ) -> bool {
    &&& -ZSCORE_BOUND <= z.flux_z <= ZSCORE_BOUND
    &&& -ZSCORE_BOUND <= z.flatness_z <= ZSCORE_BOUND
    &&& -ZSCORE_BOUND <= z.crest_z <= ZSCORE_BOUND
    &&& -ZSCORE_BOUND <= z.bandwidth_z <= ZSCORE_BOUND
    &&& -ZSCORE_BOUND <= z.hf_ratio_z <= ZSCORE_BOUND
    &&& -ZSCORE_BOUND <= z.dynrange_z <= ZSCORE_BOUND
    &&& -ZSCORE_BOUND <= z.tonality_z <= ZSCORE_BOUND
}

/// Scores a window from its z-scores and its loudness.
pub fn window_score(z: &FeatZ, loudness_dbfs: i32) -> (score: i64)
    requires
        z_bounded(*z),
    ensures
        score == score_of(*z, loudness_dbfs as int),
{
    let weighted: i64 = 25 * z.flux_z + 20 * z.flatness_z + 20 * z.crest_z + 15 * z.bandwidth_z
        + 10 * z.hf_ratio_z + 10 * z.dynrange_z - 20 * z.tonality_z;
    let base: i64 = if weighted >= 0 {
        ((weighted as u64) / 100) as i64
    } else {
        -((((-weighted) as u64) / 100) as i64)
    };
    let below_45: i64 = if loudness_dbfs < -45_000 {
        500
    } else {
        0
    };
    let below_60: i64 = if loudness_dbfs < -60_000 {
        1000
    } else {
        0
    };
    base - below_45 - below_60
}

/// Window `i` with its z-scores and its score filled in.
pub open spec fn scored(wins: Seq<WindowFeat>, i: int) -> WindowFeat {
    let w = wins[i];
    let z = z_of(wins, w);
    WindowFeat {
        start_ms: w.start_ms,
        end_ms: w.end_ms,
        flux: w.flux,
        flatness: w.flatness,
        crest_db: w.crest_db,
        bandwidth_hz_95: w.bandwidth_hz_95,
        hf_ratio: w.hf_ratio,
        dyn_range: w.dyn_range,
        tonality: w.tonality,
        loudness_dbfs: w.loudness_dbfs,
        score: score_of(z, w.loudness_dbfs as int) as i64,
        z,
    }
}

fn feature(w: &WindowFeat, which: Feature) -> (v: i32)
    ensures
        v == feature_of(*w, which),
{
    match which {
        Feature::Flux => w.flux,
        Feature::Flatness => w.flatness,
        Feature::Crest => w.crest_db,
        Feature::Bandwidth => w.bandwidth_hz_95,
        Feature::HfRatio => w.hf_ratio,
        Feature::DynRange => w.dyn_range,
        Feature::Tonality => w.tonality,
    }
}

/// Median and median absolute deviation of one feature over all windows.
fn feature_scale(wins: &Vec<WindowFeat>, which: Feature) -> (out: (i64, i64))
    requires
        wins@.len() > 0,
    ensures
        -0x8000_0000 <= out.0 <= 0x7FFF_FFFF,
        0 <= out.1 <= 0xFFFF_FFFF,
        forall|w: WindowFeat|
            feature_z(wins@, w, which) == crate::stats::zscore_from(
                feature_of(w, which) - out.0,
                out.1 as int,
            ),
{
    let mut xs: Vec<i32> = Vec::new();
    let mut i: usize = 0;
    while i < wins.len()
        invariant
            i <= wins@.len(),
            xs@.len() == i,
            forall|j: int| 0 <= j < i ==> #[trigger] xs@[j] == feature_of(wins@[j], which),
        decreases wins@.len() - i,
    {
        xs.push(feature(&wins[i], which));
        i += 1;
    }
    assert(xs@ =~= population_of(wins@, which));
    median_and_mad(&xs)
}

/// Fills in the z-scores and the score of every window.
pub fn score_windows(wins: &Vec<WindowFeat>) -> (out: Vec<WindowFeat>)
    ensures
        out@.len() == wins@.len(),
        forall|i: int| 0 <= i < out@.len() ==> #[trigger] out@[i] == scored(wins@, i),
{
    let mut out: Vec<WindowFeat> = Vec::new();
    if wins.len() == 0 {
        return out;
    }
    let flux = feature_scale(wins, Feature::Flux);
    let flat = feature_scale(wins, Feature::Flatness);
    let crest = feature_scale(wins, Feature::Crest);
    let bw = feature_scale(wins, Feature::Bandwidth);
    let hf = feature_scale(wins, Feature::HfRatio);
    let dr = feature_scale(wins, Feature::DynRange);
    let tone = feature_scale(wins, Feature::Tonality);
    let mut i: usize = 0;
    while i < wins.len()
        invariant
            i <= wins@.len(),
            out@.len() == i,
            forall|j: int| 0 <= j < i ==> #[trigger] out@[j] == scored(wins@, j),
            -0x8000_0000 <= flux.0 <= 0x7FFF_FFFF && 0 <= flux.1 <= 0xFFFF_FFFF,
            -0x8000_0000 <= flat.0 <= 0x7FFF_FFFF && 0 <= flat.1 <= 0xFFFF_FFFF,
            -0x8000_0000 <= crest.0 <= 0x7FFF_FFFF && 0 <= crest.1 <= 0xFFFF_FFFF,
            -0x8000_0000 <= bw.0 <= 0x7FFF_FFFF && 0 <= bw.1 <= 0xFFFF_FFFF,
            -0x8000_0000 <= hf.0 <= 0x7FFF_FFFF && 0 <= hf.1 <= 0xFFFF_FFFF,
            -0x8000_0000 <= dr.0 <= 0x7FFF_FFFF && 0 <= dr.1 <= 0xFFFF_FFFF,
            -0x8000_0000 <= tone.0 <= 0x7FFF_FFFF && 0 <= tone.1 <= 0xFFFF_FFFF,
            forall|w: WindowFeat|
                feature_z(wins@, w, Feature::Flux) == crate::stats::zscore_from(
                    w.flux - flux.0,
                    flux.1 as int,
                ),
            forall|w: WindowFeat|
                feature_z(wins@, w, Feature::Flatness) == crate::stats::zscore_from(
                    w.flatness - flat.0,
                    flat.1 as int,
                ),
            forall|w: WindowFeat|
                feature_z(wins@, w, Feature::Crest) == crate::stats::zscore_from(
                    w.crest_db - crest.0,
                    crest.1 as int,
                ),
            forall|w: WindowFeat|
                feature_z(wins@, w, Feature::Bandwidth) == crate::stats::zscore_from(
                    w.bandwidth_hz_95 - bw.0,
                    bw.1 as int,
                ),
            forall|w: WindowFeat|
                feature_z(wins@, w, Feature::HfRatio) == crate::stats::zscore_from(
                    w.hf_ratio - hf.0,
                    hf.1 as int,
                ),
            forall|w: WindowFeat|
                feature_z(wins@, w, Feature::DynRange) == crate::stats::zscore_from(
                    w.dyn_range - dr.0,
                    dr.1 as int,
                ),
            forall|w: WindowFeat|
                feature_z(wins@, w, Feature::Tonality) == crate::stats::zscore_from(
                    w.tonality - tone.0,
                    tone.1 as int,
                ),
        decreases wins@.len() - i,
    {
        let w: WindowFeat = wins[i];
        let z = FeatZ {
            flux_z: zscore_against(flux.0, flux.1, w.flux),
            flatness_z: zscore_against(flat.0, flat.1, w.flatness),
            crest_z: zscore_against(crest.0, crest.1, w.crest_db),
            bandwidth_z: zscore_against(bw.0, bw.1, w.bandwidth_hz_95),
            hf_ratio_z: zscore_against(hf.0, hf.1, w.hf_ratio),
            dynrange_z: zscore_against(dr.0, dr.1, w.dyn_range),
            tonality_z: zscore_against(tone.0, tone.1, w.tonality),
        };
        assert(z == z_of(wins@, w));
        let score = window_score(&z, w.loudness_dbfs);
        out.push(
            WindowFeat {
                start_ms: w.start_ms,
                end_ms: w.end_ms,
                flux: w.flux,
                flatness: w.flatness,
                crest_db: w.crest_db,
                bandwidth_hz_95: w.bandwidth_hz_95,
                hf_ratio: w.hf_ratio,
                dyn_range: w.dyn_range,
                tonality: w.tonality,
                loudness_dbfs: w.loudness_dbfs,
                score,
                z,
            },
        );
        i += 1;
    }
    out
}

/// The windows stand in the order of their starts.
pub open spec fn in_time_order(wins: Seq<WindowFeat>) -> bool {
    forall|i: int, j: int|
        0 <= i < j < wins.len() ==> (#[trigger] wins[i]).start_ms <= (#[trigger] wins[j]).start_ms
}

/// The scores of all windows.
pub open spec fn scores_of(wins: Seq<WindowFeat>) -> Seq<int> {
    Seq::new(wins.len(), |i: int| wins[i].score as int)
}

/// Windows to either side that a peak must beat: the suppression radius in
/// strides, to the nearest and at least one; without a stride, all of them.
pub open spec fn nms_radius_of(nms_radius_ms: int, stride_ms: int, windows: int) -> int {
    if stride_ms == 0 {
        max_int(windows, 1)
    } else {
        max_int(round_div(nms_radius_ms, stride_ms), 1)
    }
}

/// Window `i` reaches the threshold and beats every other window within the
/// radius.
pub open spec fn is_peak(scores: Seq<int>, i: int, radius: int, thr: int) -> bool {
    &&& scores[i] >= thr
    &&& forall|j: int|
        0 <= j < scores.len() && j != i && i - radius <= j <= i + radius ==> #[trigger] scores[j]
            < scores[i]
}

/// Window `j` comes before window `i` when peaks are ranked: by the higher
/// score, and among equal scores by the earlier window.
pub open spec fn outranks(scores: Seq<int>, j: int, i: int) -> bool {
    scores[j] > scores[i] || (scores[j] == scores[i] && j < i)
}

/// Number of peaks among the first `n` windows that outrank window `i`.
pub open spec fn peaks_ahead(scores: Seq<int>, radius: int, thr: int, i: int, n: int) -> int
    decreases n,
{
    if n <= 0 {
        0
    } else {
        peaks_ahead(scores, radius, thr, i, n - 1) + if is_peak(scores, n - 1, radius, thr)
            && outranks(scores, n - 1, i) {
            1int
        } else {
            0int
        }
    }
}

/// Window `i` is kept: it is a peak, and fewer than `top_n` peaks outrank
/// it.
pub open spec fn is_kept(scores: Seq<int>, radius: int, thr: int, top_n: int, i: int) -> bool {
    is_peak(scores, i, radius, thr) && peaks_ahead(scores, radius, thr, i, scores.len() as int)
        < top_n
}

/// The kept windows among the first `n`, in their order.
pub open spec fn kept_upto(wins: Seq<WindowFeat>, radius: int, thr: int, top_n: int, n: int)
    -> Seq<WindowFeat>
    decreases n,
{
    if n <= 0 {
        Seq::empty()
    } else {
        let before = kept_upto(wins, radius, thr, top_n, n - 1);
        if is_kept(scores_of(wins), radius, thr, top_n, n - 1) {
            before.push(wins[n - 1])
        } else {
            before
        }
    }
}

/// The segment that a single window makes.
pub open spec fn segment_of(w: WindowFeat) -> Segment {
    Segment { start_ms: w.start_ms as u64, end_ms: w.end_ms as u64, peak: w }
}

/// A segment grown by a window: it ends with the later of the two, and its
/// peak is the window if that scores higher.
pub open spec fn absorbed(seg: Segment, w: WindowFeat) -> Segment {
    Segment {
        start_ms: seg.start_ms,
        end_ms: if w.end_ms > seg.end_ms {
            w.end_ms as u64
        } else {
            seg.end_ms
        },
        peak: if w.score > seg.peak.score {
            w
        } else {
            seg.peak
        },
    }
}

/// The windows merged into segments: a window that starts no later than
/// `gap` behind the segment before it grows that segment, any other starts
/// a new one.
pub open spec fn merged(ws: Seq<WindowFeat>, gap: int) -> Seq<Segment>
    decreases ws.len(),
{
    if ws.len() == 0 {
        Seq::empty()
    } else {
        let before = merged(ws.drop_last(), gap);
        let w = ws.last();
        if before.len() > 0 && w.start_ms <= before.last().end_ms + gap {
            before.update(before.len() - 1, absorbed(before.last(), w))
        } else {
            before.push(segment_of(w))
        }
    }
}

/// A segment with its duration brought within `lo..=hi`; where the two are
/// at odds, `hi` wins.
pub open spec fn clamped(seg: Segment, lo: int, hi: int) -> Segment {
    let dur = seg.end_ms - seg.start_ms;
    Segment {
        start_ms: seg.start_ms,
        end_ms: if dur < lo {
            (seg.start_ms + min_int(lo, hi)) as u64
        } else if dur > hi {
            (seg.start_ms + hi) as u64
        } else {
            seg.end_ms
        },
        peak: seg.peak,
    }
}

/// A clamped segment lasts no less than `lo` and no more than `hi`, where
/// the two agree with each other.
pub proof fn lemma_clamped_duration(seg: Segment, lo: int, hi: int)
    requires
        0 <= lo <= hi,
        seg.start_ms + hi <= u64::MAX,
    ensures
        clamped(seg, lo, hi).start_ms == seg.start_ms,
        lo <= clamped(seg, lo, hi).end_ms - seg.start_ms <= hi,
{
}

/// The segments of a track, from its scored windows in time order.
pub open spec fn segments_of(wins: Seq<WindowFeat>, p: ScanParams) -> Seq<Segment> {
    let thr = percentile_of(scores_of(wins), p.min_percentile as int);
    let radius = nms_radius_of(p.nms_radius_ms as int, p.stride_ms as int, wins.len() as int);
    let kept = kept_upto(wins, radius, thr, p.top_n as int, wins.len() as int);
    merged(kept, p.merge_gap_ms as int).map_values(
        |s: Segment| clamped(s, p.clamp_min_ms as int, p.clamp_max_ms as int),
    )
}

fn peak_at(scores: &Vec<i64>, i: usize, radius: usize, thr: i64) -> (peak: bool)
    requires
        i < scores@.len(),
    ensures
        peak == is_peak(wide(scores@), i as int, radius as int, thr as int),
{
    let n: usize = scores.len();
    let ghost s = wide(scores@);
    assert(s[i as int] == scores@[i as int]);
    if scores[i] < thr {
        return false;
    }
    let lo: usize = if i >= radius {
        i - radius
    } else {
        0
    };
    let hi: usize = if radius >= n - 1 - i {
        n - 1
    } else {
        i + radius
    };
    let mut j: usize = lo;
    while j <= hi
        invariant
            lo <= j <= hi + 1,
            hi < n,
            i < n,
            n == scores@.len(),
            s == wide(scores@),
            i - radius <= lo,
            hi <= i + radius,
            lo == 0 || lo == i - radius,
            hi == n - 1 || hi == i + radius,
            forall|t: int| lo <= t < j && t != i ==> #[trigger] s[t] < s[i as int],
        decreases hi + 1 - j,
    {
        assert(s[j as int] == scores@[j as int]);
        if j != i && scores[j] >= scores[i] {
            assert(i - radius <= j <= i + radius);
            assert(!(s[j as int] < s[i as int]));
            return false;
        }
        j += 1;
    }
    assert forall|t: int|
        0 <= t < s.len() && t != i && i - radius <= t <= i + radius implies #[trigger] s[t]
        < s[i as int] by {
        assert(lo <= t <= hi);
    }
    true
}

fn count_ahead(scores: &Vec<i64>, peaks: &Vec<bool>, i: usize, radius: usize, thr: i64) -> (c:
    usize)
    requires
        i < scores@.len(),
        peaks@.len() == scores@.len(),
        forall|t: int|
            0 <= t < peaks@.len() ==> #[trigger] peaks@[t] == is_peak(
                wide(scores@),
                t,
                radius as int,
                thr as int,
            ),
    ensures
        c == peaks_ahead(
            wide(scores@),
            radius as int,
            thr as int,
            i as int,
            scores@.len() as int,
        ),
{
    let n: usize = scores.len();
    let ghost s = wide(scores@);
    let mut c: usize = 0;
    let mut j: usize = 0;
    while j < n
        invariant
            j <= n,
            i < n,
            n == scores@.len(),
            peaks@.len() == n,
            s == wide(scores@),
            forall|t: int|
                0 <= t < n ==> #[trigger] peaks@[t] == is_peak(s, t, radius as int, thr as int),
            c <= j,
            c == peaks_ahead(s, radius as int, thr as int, i as int, j as int),
        decreases n - j,
    {
        assert(s[j as int] == scores@[j as int]);
        assert(s[i as int] == scores@[i as int]);
        if peaks[j] && (scores[j] > scores[i] || (scores[j] == scores[i] && j < i)) {
            c += 1;
        }
        j += 1;
    }
    c
}

fn clamp_segment(seg: Segment, lo: u32, hi: u32) -> (out: Segment)
    requires
        seg.start_ms <= u32::MAX,
        seg.end_ms <= u32::MAX,
    ensures
        out == clamped(seg, lo as int, hi as int),
{
    let dur: i128 = seg.end_ms as i128 - seg.start_ms as i128;
    let end_ms: u64 = if dur < lo as i128 {
        seg.start_ms + (if lo < hi {
            lo as u64
        } else {
            hi as u64
        })
    } else if dur > hi as i128 {
        seg.start_ms + hi as u64
    } else {
        seg.end_ms
    };
    Segment { start_ms: seg.start_ms, end_ms, peak: seg.peak }
}

/// Picks the segments of a track from its scored windows, which must be in
/// time order: the windows at or above the score percentile that beat their
/// neighbours, the `top_n` best of them, merged across small gaps and
/// clamped in duration.
pub fn select_segments(wins: &Vec<WindowFeat>, p: &ScanParams) -> (segs: Vec<Segment>)
    requires
        in_time_order(wins@),
    ensures
        segs@ == segments_of(wins@, *p),
{
    let n: usize = wins.len();
    let mut scores: Vec<i64> = Vec::new();
    let mut i: usize = 0;
    while i < n
        invariant
            i <= n,
            n == wins@.len(),
            scores@.len() == i,
            forall|j: int| 0 <= j < i ==> #[trigger] scores@[j] == wins@[j].score,
        decreases n - i,
    {
        scores.push(wins[i].score);
        i += 1;
    }
    let ghost s = scores_of(wins@);
    assert(wide(scores@) =~= s);
    let thr = percentile(&scores, p.min_percentile);
    let radius: usize = if p.stride_ms == 0 {
        if n > 1 {
            n
        } else {
            1
        }
    } else {
        let r: u64 = (2 * (p.nms_radius_ms as u64) + p.stride_ms as u64) / (2 * (p.stride_ms as u64));
        assert(r <= 0xFFFF_FFFF) by (nonlinear_arith)
            requires
                r as int == (2 * p.nms_radius_ms as int + p.stride_ms as int) / (2
                    * p.stride_ms as int),
                1 <= p.stride_ms,
                0 <= p.nms_radius_ms <= 0xFFFF_FFFF,
        ;
        if r > 1 {
            r as usize
        } else {
            1
        }
    };
    assert(radius as int == nms_radius_of(
        p.nms_radius_ms as int,
        p.stride_ms as int,
        wins@.len() as int,
    ));
    let mut peaks: Vec<bool> = Vec::new();
    let mut a: usize = 0;
    while a < n
        invariant
            a <= n,
            n == scores@.len(),
            s == wide(scores@),
            peaks@.len() == a,
            forall|t: int|
                0 <= t < a ==> #[trigger] peaks@[t] == is_peak(s, t, radius as int, thr as int),
        decreases n - a,
    {
        peaks.push(peak_at(&scores, a, radius, thr));
        a += 1;
    }
    let mut kept: Vec<WindowFeat> = Vec::new();
    let mut b: usize = 0;
    while b < n
        invariant
            b <= n,
            n == scores@.len(),
            n == wins@.len(),
            s == wide(scores@),
            s == scores_of(wins@),
            peaks@.len() == n,
            forall|t: int|
                0 <= t < n ==> #[trigger] peaks@[t] == is_peak(s, t, radius as int, thr as int),
            kept@ == kept_upto(wins@, radius as int, thr as int, p.top_n as int, b as int),
        decreases n - b,
    {
        if peaks[b] {
            let ahead = count_ahead(&scores, &peaks, b, radius, thr);
            if ahead < p.top_n {
                kept.push(wins[b]);
            }
        }
        b += 1;
    }
    let mut segs: Vec<Segment> = Vec::new();
    let mut c: usize = 0;
    while c < kept.len()
        invariant
            c <= kept@.len(),
            segs@ == merged(kept@.take(c as int), p.merge_gap_ms as int),
            forall|t: int|
                0 <= t < segs@.len() ==> (#[trigger] segs@[t]).start_ms <= u32::MAX && segs@[t].end_ms
                    <= u32::MAX,
        decreases kept@.len() - c,
    {
        let w: WindowFeat = kept[c];
        assert(kept@.take(c + 1).drop_last() =~= kept@.take(c as int));
        assert(kept@.take(c + 1).last() == w);
        let last: usize = segs.len();
        if last > 0 && w.start_ms as u64 <= segs[last - 1].end_ms + p.merge_gap_ms as u64 {
            let seg: Segment = segs[last - 1];
            let grown = Segment {
                start_ms: seg.start_ms,
                end_ms: if w.end_ms as u64 > seg.end_ms {
                    w.end_ms as u64
                } else {
                    seg.end_ms
                },
                peak: if w.score > seg.peak.score {
                    w
                } else {
                    seg.peak
                },
            };
            segs.set(last - 1, grown);
        } else {
            segs.push(Segment { start_ms: w.start_ms as u64, end_ms: w.end_ms as u64, peak: w });
        }
        c += 1;
    }
    assert(kept@.take(kept@.len() as int) =~= kept@);
    let ghost joined = segs@;
    let mut out: Vec<Segment> = Vec::new();
    let mut d: usize = 0;
    while d < segs.len()
        invariant
            d <= segs@.len(),
            segs@ == joined,
            forall|t: int|
                0 <= t < segs@.len() ==> (#[trigger] segs@[t]).start_ms <= u32::MAX && segs@[t].end_ms
                    <= u32::MAX,
            out@.len() == d,
            forall|t: int|
                0 <= t < d ==> #[trigger] out@[t] == clamped(
                    joined[t],
                    p.clamp_min_ms as int,
                    p.clamp_max_ms as int,
                ),
        decreases segs@.len() - d,
    {
        out.push(clamp_segment(segs[d], p.clamp_min_ms, p.clamp_max_ms));
        d += 1;
    }
    assert(joined == merged(
        kept_upto(wins@, radius as int, thr as int, p.top_n as int, n as int),
        p.merge_gap_ms as int,
    ));
    assert(out@ =~= segments_of(wins@, *p));
    out
}

/// All windows with their z-scores and scores filled in.
pub open spec fn scored_all(wins: Seq<WindowFeat>) -> Seq<WindowFeat> {
    Seq::new(wins.len(), |i: int| scored(wins, i))
}

/// Scores the measured windows of a track, which must be in time order,
/// and picks its segments.
pub fn analyze(wins: &Vec<WindowFeat>, p: &ScanParams) -> (segs: Vec<Segment>)
    requires
        in_time_order(wins@),
    ensures
        segs@ == segments_of(scored_all(wins@), *p),
{
    let scored = score_windows(wins);
    assert(scored@ =~= scored_all(wins@));
    assert(in_time_order(scored@)) by {
        assert forall|i: int, j: int| 0 <= i < j < scored@.len() implies (#[trigger] scored@[i]).start_ms
            <= (#[trigger] scored@[j]).start_ms by {
            assert(scored@[i].start_ms == wins@[i].start_ms);
            assert(scored@[j].start_ms == wins@[j].start_ms);
        }
    }
    select_segments(&scored, p)
}

/// The mean of the squares of the samples, in millionths of full scale
/// squared and rounded down; zero for no samples.
pub open spec fn mean_square_of(x: Seq<i16>) -> int {
    if x.len() == 0 {
        0
    } else {
        square_sum_to(x, x.len() as int) * 1_000_000_000_000 / (1_073_741_824 * x.len() as int)
    }
}

/// Root mean square of the samples in millionths of full scale, rounded
/// down.
pub fn rms(x: &[i16]) -> (level: u32)
    ensures
        is_isqrt(mean_square_of(x@), level as int),
        level as int == isqrt(mean_square_of(x@)),
        level <= 1_000_000,
{
    let n: usize = x.len();
    let mut total: u128 = 0;
    let mut i: usize = 0;
    while i < n
        invariant
            i <= n,
            n == x@.len(),
            total == square_sum_to(x@, i as int),
            total <= 1_073_741_824 * i,
        decreases n - i,
    {
        let v: i64 = x[i] as i64;
        assert(0 <= v * v <= 1_073_741_824) by (nonlinear_arith)
            requires
                -32768 <= v <= 32767,
        ;
        total = total + (v * v) as u128;
        i += 1;
    }
    let mean: u128 = if n == 0 {
        0
    } else {
        // Numerator and denominator both hold a factor of 4096.
        let num: u128 = total * 244_140_625;
        let den: u128 = 262_144 * (n as u128);
        let mean: u128 = num / den;
        proof {
            lemma_div_multiples_vanish_quotient(4096, num as int, den as int);
            assert(4096 * num == total * 1_000_000_000_000);
            assert(4096 * den == 1_073_741_824 * n);
            assert(mean <= 1_000_000_000_000) by (nonlinear_arith)
                requires
                    mean as int == (num as int) / (den as int),
                    num == total * 244_140_625,
                    den == 262_144 * n,
                    0 <= total <= 1_073_741_824 * n,
                    n > 0,
            ;
        }
        mean
    };
    let root: u64 = isqrt_u64(mean as u64);
    assert(root <= 1_000_000) by (nonlinear_arith)
        requires
            root * root <= mean,
            mean <= 1_000_000_000_000,
            root >= 0,
    ;
    root as u32
}

} // verus!
