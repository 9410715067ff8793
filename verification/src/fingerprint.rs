//! Band-peak fingerprints: a track's loudest coarse band, frame by frame,
//! and how alike two such sequences are.

use vstd::prelude::*;
use vstd::arithmetic::div_mod::lemma_fundamental_div_mod_converse;
use crate::estimator::{first_max, lemma_first_max, square_sum_to};
use crate::units::{
    lemma_next_pow2, max_int, min_int, next_pow2, next_pow2_u64, round_div, round_div_u128, MICRO,
};

verus! {

/// Number of coarse bands of a fingerprint.
pub const FP_BANDS: usize = 32;

/// Largest lag, in microseconds, tried either way when two fingerprints are
/// compared.
pub const LAG_MAX_US: u64 = 500_000;

/// Sequence of loudest-band indices, one per frame.
#[derive(Clone, Debug)]
pub struct Fingerprint {
    /// Kind of fingerprint; `"bandpeak_v1"` for those built here.
    pub fp_type: String,
    /// Number of coarse bands.
    pub bands: usize,
    /// Time between frames, in microseconds.
    pub hop_us: u32,
    /// Where in the track the fingerprinted window starts, in milliseconds.
    pub offset_ms: u32,
    /// The loudest band of each frame.
    pub bins: Vec<u8>,
}

/// What a comparison reads of a fingerprint: its bins and its hop.
pub struct Track {
    pub bins: Seq<u8>,
    pub hop: int,
}

/// What a comparison reads of `f`.
pub open spec fn track_of(f: Fingerprint) -> Track {
    Track { bins: f.bins@, hop: f.hop_us as int }
}

/// The frame nearest to time `x` on a grid of step `hop`; a time half-way
/// between two frames belongs to the later one.
pub open spec fn grid_index(x: int, hop: int) -> int {
    (2 * x + hop) / (2 * hop)
}

/// At time `t`, with `b` shifted by `lag`, both tracks have a frame.
pub open spec fn compared(a: Track, b: Track, lag: int, t: int) -> bool {
    &&& 0 <= grid_index(t, a.hop) < a.bins.len()
    &&& 0 <= grid_index(t + lag, b.hop) < b.bins.len()
}

/// At time `t` both tracks have a frame, and the two frames peak in the same
/// band.
pub open spec fn coincide(a: Track, b: Track, lag: int, t: int) -> bool {
    compared(a, b, lag, t) && a.bins[grid_index(t, a.hop)] == b.bins[grid_index(t + lag, b.hop)]
}

/// Number of the first `n` grid times at which both tracks have a frame.
pub open spec fn compared_upto(a: Track, b: Track, lag: int, step: int, n: int) -> int
    decreases n,
{
    if n <= 0 {
        0
    } else {
        compared_upto(a, b, lag, step, n - 1) + if compared(a, b, lag, (n - 1) * step) {
            1int
        } else {
            0int
        }
    }
}

/// Number of the first `n` grid times at which the two tracks coincide.
pub open spec fn hits_upto(a: Track, b: Track, lag: int, step: int, n: int) -> int
    decreases n,
{
    if n <= 0 {
        0
    } else {
        hits_upto(a, b, lag, step, n - 1) + if coincide(a, b, lag, (n - 1) * step) {
            1int
        } else {
            0int
        }
    }
}

/// Step of the common time grid: the smaller hop.
pub open spec fn grid_step(a: Track, b: Track) -> int {
    min_int(a.hop, b.hop)
}

/// Time spanned by both tracks.
pub open spec fn common_span(a: Track, b: Track) -> int {
    min_int((a.bins.len() - 1) * a.hop, (b.bins.len() - 1) * b.hop)
}

/// Number of grid times within the common span.
pub open spec fn grid_len(a: Track, b: Track) -> int {
    common_span(a, b) / grid_step(a, b) + 1
}

/// Share of coincidences among the compared positions at one lag, in
/// millionths; zero when nothing is compared.
pub open spec fn lag_score(a: Track, b: Track, lag: int) -> int {
    let total = compared_upto(a, b, lag, grid_step(a, b), grid_len(a, b));
    let hits = hits_upto(a, b, lag, grid_step(a, b), grid_len(a, b));
    if total > 0 {
        hits * MICRO as int / total
    } else {
        0
    }
}

/// The `j`-th lag tried.
pub open spec fn lag_at(a: Track, b: Track, j: int) -> int {
    j * grid_step(a, b) - LAG_MAX_US as int
}

/// Number of lags tried: from half a second early to half a second late.
pub open spec fn lag_count(a: Track, b: Track) -> int {
    2 * LAG_MAX_US as int / grid_step(a, b) + 1
}

/// Best score among the first `n` lags.
pub open spec fn best_score(a: Track, b: Track, n: int) -> int
    decreases n,
{
    if n <= 0 {
        0
    } else {
        max_int(best_score(a, b, n - 1), lag_score(a, b, lag_at(a, b, n - 1)))
    }
}

/// Similarity of two tracks in millionths: the best score over all lags, and
/// zero when a track is empty or has no positive hop.
pub open spec fn track_similarity(a: Track, b: Track) -> int {
    if a.bins.len() == 0 || b.bins.len() == 0 || a.hop <= 0 || b.hop <= 0 {
        0
    } else {
        best_score(a, b, lag_count(a, b))
    }
}

/// Similarity of two fingerprints in millionths; zero when their kinds or
/// band counts differ.
pub open spec fn similarity(a: Fingerprint, b: Fingerprint) -> int {
    if a.fp_type@ != b.fp_type@ || a.bands != b.bands {
        0
    } else {
        track_similarity(track_of(a), track_of(b))
    }
}

proof fn lemma_tally_bounds(a: Track, b: Track, lag: int, step: int, n: int)
    requires
        n >= 0,
    ensures
        0 <= hits_upto(a, b, lag, step, n) <= compared_upto(a, b, lag, step, n) <= n,
    decreases n,
{
    if n > 0 {
        lemma_tally_bounds(a, b, lag, step, n - 1);
    }
}

/// The frame of a track with `len` frames that lies nearest to time `x`, if
/// there is one.
fn frame_at(x: i128, hop: u32, len: usize) -> (at: Option<usize>)
    requires
        hop > 0,
        -0x1_0000_0000_0000_0000_0000_0000 <= x <= 0x1_0000_0000_0000_0000_0000_0000,
    ensures
        at is Some <==> 0 <= grid_index(x as int, hop as int) < len,
        at matches Some(i) ==> i == grid_index(x as int, hop as int),
{
    let h: u128 = hop as u128;
    if x >= 0 {
        let q: u128 = (2 * (x as u128) + h) / (2 * h);
        if q < len as u128 {
            Some(q as usize)
        } else {
            None
        }
    } else {
        // Before the first frame: only the half hop next to it is nearest
        // to a frame at all.
        let back: u128 = 2 * ((-x) as u128);
        if back <= h && len > 0 {
            proof {
                lemma_fundamental_div_mod_converse(2 * x + h, 2 * h as int, 0, 2 * x + h);
            }
            Some(0)
        } else {
            proof {
                if back > h {
                    let q = grid_index(x as int, h as int);
                    assert(q < 0) by (nonlinear_arith)
                        requires
                            q == (2 * x + h) / (2 * h as int),
                            2 * x + h < 0,
                            h > 0,
                    ;
                } else {
                    lemma_fundamental_div_mod_converse(2 * x + h, 2 * h as int, 0, 2 * x + h);
                }
            }
            None
        }
    }
}

fn score_at_lag(a: &Fingerprint, b: &Fingerprint, lag: i128, step: u64, n: u128) -> (score: u32)
    requires
        a.hop_us > 0,
        b.hop_us > 0,
        step == grid_step(track_of(*a), track_of(*b)),
        n == grid_len(track_of(*a), track_of(*b)),
        common_span(track_of(*a), track_of(*b)) >= 0,
        -(LAG_MAX_US as int) <= lag <= LAG_MAX_US as int,
    ensures
        score == lag_score(track_of(*a), track_of(*b), lag as int),
        score <= MICRO,
{
    let ghost ta = track_of(*a);
    let ghost tb = track_of(*b);
    let len_a: usize = a.bins.len();
    let len_b: usize = b.bins.len();
    let mut hits: u128 = 0;
    let mut total: u128 = 0;
    let mut i: u128 = 0;
    proof {
        let span = common_span(ta, tb);
        assert(span <= 0xFFFF_FFFF_FFFF_FFFF * 0xFFFF_FFFF) by (nonlinear_arith)
            requires
                span <= (ta.bins.len() - 1) * ta.hop,
                ta.bins.len() <= 0xFFFF_FFFF_FFFF_FFFF,
                0 < ta.hop <= 0xFFFF_FFFF,
        ;
        assert((n - 1) * step <= span) by (nonlinear_arith)
            requires
                n - 1 == span / (step as int),
                step > 0,
                span >= 0,
        ;
    }
    while i < n
        invariant
            i <= n,
            ta == track_of(*a),
            tb == track_of(*b),
            len_a == ta.bins.len(),
            len_b == tb.bins.len(),
            a.hop_us > 0,
            b.hop_us > 0,
            step > 0,
            (n - 1) * step <= 0xFFFF_FFFF_FFFF_FFFF * 0xFFFF_FFFF,
            n <= 0xFFFF_FFFF_FFFF_FFFF * 0xFFFF_FFFF + 1,
            -(LAG_MAX_US as int) <= lag <= LAG_MAX_US as int,
            hits == hits_upto(ta, tb, lag as int, step as int, i as int),
            total == compared_upto(ta, tb, lag as int, step as int, i as int),
            hits <= total <= i,
        decreases n - i,
    {
        assert(i * step <= (n - 1) * step) by (nonlinear_arith)
            requires
                0 <= i <= n - 1,
                step > 0,
        ;
        let t: u128 = i * (step as u128);
        match frame_at(t as i128, a.hop_us, len_a) {
            Some(ia) => match frame_at(t as i128 + lag, b.hop_us, len_b) {
                Some(ib) => {
                    total = total + 1;
                    if a.bins[ia] == b.bins[ib] {
                        hits = hits + 1;
                    }
                },
                None => {},
            },
            None => {},
        }
        i = i + 1;
    }
    if total > 0 {
        let q: u128 = hits * 1_000_000 / total;
        assert(q <= 1_000_000) by (nonlinear_arith)
            requires
                q as int == (hits as int * 1_000_000) / (total as int),
                0 <= hits <= total,
                total > 0,
        ;
        q as u32
    } else {
        0
    }
}

/// Compares two fingerprints; the result is their similarity in millionths.
pub fn fp_similarity(a: &Fingerprint, b: &Fingerprint) -> (sim: u32)
    ensures
        sim == similarity(*a, *b),
        sim <= MICRO,
{
    if a.fp_type != b.fp_type || a.bands != b.bands {
        return 0;
    }
    if a.bins.len() == 0 || b.bins.len() == 0 || a.hop_us == 0 || b.hop_us == 0 {
        return 0;
    }
    let ghost ta = track_of(*a);
    let ghost tb = track_of(*b);
    let step: u64 = if a.hop_us <= b.hop_us {
        a.hop_us as u64
    } else {
        b.hop_us as u64
    };
    let la: u128 = (a.bins.len() - 1) as u128;
    let lb: u128 = (b.bins.len() - 1) as u128;
    let ha: u128 = a.hop_us as u128;
    let hb: u128 = b.hop_us as u128;
    assert(la * ha <= 0xFFFF_FFFF_FFFF_FFFFu128 * 0xFFFF_FFFF && lb * hb
        <= 0xFFFF_FFFF_FFFF_FFFFu128 * 0xFFFF_FFFF) by (nonlinear_arith)
        requires
            0 <= la <= 0xFFFF_FFFF_FFFF_FFFF,
            0 <= lb <= 0xFFFF_FFFF_FFFF_FFFF,
            0 <= ha <= 0xFFFF_FFFF,
            0 <= hb <= 0xFFFF_FFFF,
    ;
    let dur_a: u128 = la * ha;
    let dur_b: u128 = lb * hb;
    let span: u128 = if dur_a <= dur_b {
        dur_a
    } else {
        dur_b
    };
    let n: u128 = span / (step as u128) + 1;
    let lags: u64 = 1_000_000 / step + 1;
    let mut best: u32 = 0;
    let mut j: u64 = 0;
    while j < lags
        invariant
            j <= lags,
            ta == track_of(*a),
            tb == track_of(*b),
            a.hop_us > 0,
            b.hop_us > 0,
            step == grid_step(ta, tb),
            n == grid_len(ta, tb),
            common_span(ta, tb) >= 0,
            lags == lag_count(ta, tb),
            best == best_score(ta, tb, j as int),
            best <= MICRO,
        decreases lags - j,
    {
        assert(j * step <= 1_000_000) by (nonlinear_arith)
            requires
                j <= lags - 1,
                lags - 1 == 1_000_000int / (step as int),
                step > 0,
                j >= 0,
        ;
        let lag: i128 = (j * step) as i128 - 500_000;
        let score = score_at_lag(a, b, lag, step, n);
        if score > best {
            best = score;
        }
        j += 1;
    }
    best
}

/// A time within half a hop of frame `i` is nearest to frame `i`.
proof fn lemma_grid_index_near(i: int, h: int, lag: int)
    requires
        h > 0,
        -h <= 2 * lag <= h - 1,
    ensures
        grid_index(i * h + lag, h) == i,
{
    let x = i * h + lag;
    assert(2 * x + h == i * (2 * h) + (2 * lag + h)) by (nonlinear_arith)
        requires
            x == i * h + lag,
    ;
    lemma_fundamental_div_mod_converse(2 * x + h, 2 * h, i, 2 * lag + h);
}

proof fn lemma_self_tally(a: Track, lag: int, n: int)
    requires
        a.hop > 0,
        -a.hop <= 2 * lag <= a.hop - 1,
        0 <= n <= a.bins.len(),
    ensures
        hits_upto(a, a, lag, a.hop, n) == n,
        compared_upto(a, a, lag, a.hop, n) == n,
    decreases n,
{
    if n > 0 {
        lemma_self_tally(a, lag, n - 1);
        lemma_grid_index_near(n - 1, a.hop, lag);
        lemma_grid_index_near(n - 1, a.hop, 0);
    }
}

proof fn lemma_best_score_bounds(a: Track, b: Track, n: int, j: int)
    requires
        0 <= j < n,
    ensures
        lag_score(a, b, lag_at(a, b, j)) <= best_score(a, b, n) <= MICRO,
    decreases n,
{
    let lag = lag_at(a, b, n - 1);
    let len = grid_len(a, b);
    if len >= 0 {
        lemma_tally_bounds(a, b, lag, grid_step(a, b), len);
    }
    let total = compared_upto(a, b, lag, grid_step(a, b), len);
    let hits = hits_upto(a, b, lag, grid_step(a, b), len);
    if total > 0 {
        assert(hits * 1_000_000 / total <= 1_000_000) by (nonlinear_arith)
            requires
                0 <= hits <= total,
                total > 0,
        ;
    }
    assert(lag_score(a, b, lag) <= MICRO);
    if n - 1 > j {
        lemma_best_score_bounds(a, b, n - 1, j);
    } else if n > 1 {
        lemma_best_score_bounds(a, b, n - 1, 0);
    } else {
        assert(best_score(a, b, 0) == 0);
    }
    assert(best_score(a, b, n) == max_int(best_score(a, b, n - 1), lag_score(a, b, lag)));
}

/// A fingerprint that is not empty and has a positive hop is wholly similar
/// to itself: one of the lags tried is within half a hop of zero, and at
/// that lag every frame is compared with itself.
pub proof fn lemma_similar_to_itself(a: Fingerprint)
    requires
        a.bins@.len() >= 1,
        a.hop_us > 0,
    ensures
        similarity(a, a) == MICRO,
{
    let t = track_of(a);
    let h = t.hop;
    let len = t.bins.len() as int;
    assert((len - 1) * h >= 0 && (len - 1) * h == h * (len - 1)) by (nonlinear_arith)
        requires
            len >= 1,
            h > 0,
    ;
    lemma_fundamental_div_mod_converse((len - 1) * h, h, len - 1, 0);
    assert(grid_len(t, t) == len);
    // The lag nearest to zero from below the half step.
    let j = (1_000_000 + h - 1) / (2 * h);
    let lag = lag_at(t, t, j);
    assert(2 * h * j <= 1_000_000 + h - 1 < 2 * h * j + 2 * h && j >= 0) by (nonlinear_arith)
        requires
            j == (1_000_000 + h - 1) / (2 * h),
            h > 0,
    ;
    assert(2 * lag == 2 * h * j - 1_000_000) by (nonlinear_arith)
        requires
            lag == j * h - 500_000,
    ;
    let last = 1_000_000int / h;
    assert(h * last <= 1_000_000 < h * last + h) by (nonlinear_arith)
        requires
            last == 1_000_000int / h,
            h > 0,
    ;
    assert(j <= last) by (nonlinear_arith)
        requires
            2 * h * j <= 1_000_000 + h - 1,
            1_000_000 < h * last + h,
            h > 0,
            j >= 0,
            last >= 0,
    ;
    lemma_self_tally(t, lag, len);
    let total = compared_upto(t, t, lag, h, len);
    assert(total * 1_000_000 / total == 1_000_000) by (nonlinear_arith)
        requires
            total >= 1,
    ;
    lemma_best_score_bounds(t, t, lag_count(t, t), j);
}

/// Number of the first `c` frames of `a` that peak in the band of the frame
/// `k` places later in `b`.
spec fn shifted_hits(a: Seq<u8>, b: Seq<u8>, k: int, c: int) -> int
    decreases c,
{
    if c <= 0 {
        0
    } else {
        shifted_hits(a, b, k, c - 1) + if a[c - 1] == b[c - 1 + k] {
            1int
        } else {
            0int
        }
    }
}

/// With one hop on both sides and a lag of `k` whole hops, `k` not negative,
/// the first `j` grid times compare frame `i` of `a` with frame `i + k` of
/// `b`, as far as `b` reaches.
proof fn lemma_tally_forward(a: Track, b: Track, k: int, j: int)
    requires
        a.hop == b.hop,
        a.hop > 0,
        a.bins.len() == b.bins.len(),
        k >= 0,
        0 <= j <= a.bins.len(),
    ensures
        compared_upto(a, b, k * a.hop, a.hop, j) == min_int(j, max_int(0, a.bins.len() - k)),
        hits_upto(a, b, k * a.hop, a.hop, j) == shifted_hits(
            a.bins,
            b.bins,
            k,
            min_int(j, max_int(0, a.bins.len() - k)),
        ),
    decreases j,
{
    if j > 0 {
        let h = a.hop;
        lemma_tally_forward(a, b, k, j - 1);
        lemma_grid_index_near(j - 1, h, 0);
        lemma_grid_index_near(j - 1 + k, h, 0);
        assert((j - 1) * h + k * h == (j - 1 + k) * h) by (nonlinear_arith);
    }
}

/// The same comparison read from the other side: with a lag of `k` whole
/// hops back, the first `j` grid times compare frame `i` of `b` with frame
/// `i - k` of `a`, from frame `k` of `b` on.
proof fn lemma_tally_backward(a: Track, b: Track, k: int, j: int)
    requires
        a.hop == b.hop,
        a.hop > 0,
        a.bins.len() == b.bins.len(),
        k >= 0,
        0 <= j <= a.bins.len(),
    ensures
        compared_upto(b, a, -(k * a.hop), a.hop, j) == max_int(0, j - k),
        hits_upto(b, a, -(k * a.hop), a.hop, j) == shifted_hits(
            a.bins,
            b.bins,
            k,
            max_int(0, j - k),
        ),
    decreases j,
{
    if j > 0 {
        let h = a.hop;
        lemma_tally_backward(a, b, k, j - 1);
        lemma_grid_index_near(j - 1, h, 0);
        lemma_grid_index_near(j - 1 - k, h, 0);
        assert((j - 1) * h + -(k * h) == (j - 1 - k) * h) by (nonlinear_arith);
    }
}

proof fn lemma_equal_hop_grid(a: Track, b: Track)
    requires
        a.hop == b.hop,
        a.hop > 0,
        a.bins.len() == b.bins.len(),
        a.bins.len() >= 1,
    ensures
        grid_step(a, b) == a.hop,
        grid_len(a, b) == a.bins.len(),
{
    let h = a.hop;
    let len = a.bins.len() as int;
    assert((len - 1) * h >= 0 && (len - 1) * h == h * (len - 1)) by (nonlinear_arith)
        requires
            len >= 1,
            h > 0,
    ;
    lemma_fundamental_div_mod_converse((len - 1) * h, h, len - 1, 0);
}

/// The score of `a` against `b` at a lag of `k` whole hops is the score of
/// `b` against `a` at the opposite lag.
proof fn lemma_lag_mirror(a: Track, b: Track, k: int)
    requires
        a.hop == b.hop,
        a.hop > 0,
        a.bins.len() == b.bins.len(),
        a.bins.len() >= 1,
    ensures
        lag_score(a, b, k * a.hop) == lag_score(b, a, -(k * a.hop)),
{
    let h = a.hop;
    let len = a.bins.len() as int;
    lemma_equal_hop_grid(a, b);
    lemma_equal_hop_grid(b, a);
    if k >= 0 {
        lemma_tally_forward(a, b, k, len);
        lemma_tally_backward(a, b, k, len);
    } else {
        assert((-k) * h == -(k * h)) by (nonlinear_arith);
        lemma_tally_forward(b, a, -k, len);
        lemma_tally_backward(b, a, -k, len);
    }
}

proof fn lemma_best_score_floor(a: Track, b: Track, n: int)
    ensures
        best_score(a, b, n) >= 0,
    decreases n,
{
    if n > 0 {
        lemma_best_score_floor(a, b, n - 1);
    }
}

/// Every lag tried for `b` against `a` is the opposite of one tried for `a`
/// against `b`, so no score among the first `j` of the one exceeds the best
/// of the other.
proof fn lemma_best_mirror(a: Track, b: Track, m: int, j: int)
    requires
        a.hop == b.hop,
        a.hop > 0,
        a.bins.len() == b.bins.len(),
        a.bins.len() >= 1,
        m * a.hop == LAG_MAX_US,
        0 <= j <= 2 * m + 1,
    ensures
        best_score(b, a, j) <= best_score(a, b, 2 * m + 1),
    decreases j,
{
    if j > 0 {
        let h = a.hop;
        lemma_best_mirror(a, b, m, j - 1);
        let k = m - (j - 1);
        assert(k * h == -((j - 1) * h - m * h) && k * h == (2 * m - (j - 1)) * h - m * h)
            by (nonlinear_arith)
            requires
                k == m - (j - 1),
        ;
        lemma_lag_mirror(a, b, k);
        assert(lag_at(b, a, j - 1) == -(k * h));
        assert(lag_at(a, b, 2 * m - (j - 1)) == k * h);
        lemma_best_score_bounds(a, b, 2 * m + 1, 2 * m - (j - 1));
    } else {
        lemma_best_score_floor(a, b, 2 * m + 1);
    }
}

/// Two fingerprints with the same hop and the same number of frames are as
/// similar one way round as the other, where the hop divides half a second:
/// the lags tried are then whole hops, and each has its opposite among them.
pub proof fn lemma_similarity_symmetric(a: Fingerprint, b: Fingerprint)
    requires
        a.hop_us == b.hop_us,
        a.hop_us > 0,
        500_000int % (a.hop_us as int) == 0,
        a.bins@.len() == b.bins@.len(),
    ensures
        similarity(a, b) == similarity(b, a),
{
    let ta = track_of(a);
    let tb = track_of(b);
    let h = ta.hop;
    if a.fp_type@ == b.fp_type@ && a.bands == b.bands && ta.bins.len() >= 1 {
        let m = 500_000int / h;
        assert(m * h == 500_000 && m >= 0 && 1_000_000 == h * (2 * m)) by (nonlinear_arith)
            requires
                m == 500_000int / h,
                500_000int % h == 0,
                h > 0,
        ;
        lemma_fundamental_div_mod_converse(1_000_000, h, 2 * m, 0);
        lemma_equal_hop_grid(ta, tb);
        lemma_equal_hop_grid(tb, ta);
        assert(lag_count(ta, tb) == 2 * m + 1);
        assert(lag_count(tb, ta) == 2 * m + 1);
        lemma_best_mirror(ta, tb, m, 2 * m + 1);
        lemma_best_mirror(tb, ta, m, 2 * m + 1);
    }
}

/// Samples in `ms` milliseconds at `sr` Hz, rounded down.
pub open spec fn samples_in(ms: int, sr: int) -> int {
    ms * sr / 1000
}

/// Energy of the `w` samples from `i` on.
pub open spec fn window_energy(x: Seq<i16>, i: int, w: int) -> int {
    square_sum_to(x, i + w) - square_sum_to(x, i)
}

/// Start of the first most energetic window of `w` samples among those
/// starting at `0..=last`.
pub open spec fn loudest_start(x: Seq<i16>, w: int, last: int) -> int
    decreases last,
{
    if last <= 0 {
        0
    } else {
        let m = loudest_start(x, w, last - 1);
        if window_energy(x, last, w) > window_energy(x, m, w) {
            last
        } else {
            m
        }
    }
}

/// Where a fingerprint is taken from and how its frames are laid out, all
/// in samples (`k_max` and `band_size` in spectrum bins).
#[derive(Clone, Copy, Debug, PartialEq, Eq, Structural)]
pub struct FingerprintPlan {
    /// First sample of the fingerprinted window.
    pub start: usize,
    /// Length of the window.
    pub win_len: usize,
    /// Length of one frame, a power of two.
    pub frame_len: usize,
    /// Distance between the starts of two frames.
    pub hop_len: usize,
    /// Number of spectrum bins that are sorted into bands.
    pub k_max: usize,
    /// Spectrum bins per band.
    pub band_size: usize,
    /// Number of frames in the window.
    pub frames: usize,
}

/// Length of a fingerprint frame: 23 ms to the nearest sample, at least
/// 256 samples, rounded up to a power of two.
pub open spec fn frame_len_of(sr: int) -> int {
    next_pow2(max_int(round_div(sr * 23, 1000), 256))
}

/// Number of spectrum bins below 6 kHz and below the last bin, at least 8.
pub open spec fn k_max_of(sr: int, frame_len: int) -> int {
    max_int(min_int(6000 * frame_len / sr, frame_len / 2 - 1), 8)
}

/// The plan for a track of samples `x` at `sr` Hz and a window of `win_ms`
/// milliseconds: the most energetic window that starts within the first
/// seven seconds (or the window length plus one second, if that is more).
/// There is none for a track shorter than the window, for a window shorter
/// than 512 samples or than one frame.
pub open spec fn plan_of(x: Seq<i16>, sr: int, win_ms: int) -> Option<FingerprintPlan> {
    let win_len = samples_in(win_ms, sr);
    let seek_len = samples_in(max_int(7000, win_ms + 1000), sr);
    let search_len = max_int(min_int(seek_len, x.len() as int), win_len);
    let frame_len = frame_len_of(sr);
    let k_max = k_max_of(sr, frame_len);
    if x.len() == 0 || sr <= 0 || win_len < 512 || x.len() < win_len || win_len < frame_len {
        None
    } else {
        Some(
            FingerprintPlan {
                start: loudest_start(x, win_len, search_len - win_len) as usize,
                win_len: win_len as usize,
                frame_len: frame_len as usize,
                hop_len: (frame_len / 2) as usize,
                k_max: k_max as usize,
                band_size: max_int(k_max / FP_BANDS as int, 1) as usize,
                frames: ((win_len - frame_len) / (frame_len / 2) + 1) as usize,
            },
        )
    }
}

proof fn lemma_window_energy(x: Seq<i16>, i: int, w: int)
    requires
        0 <= i,
        0 <= w,
        i + w <= x.len(),
    ensures
        0 <= window_energy(x, i, w) <= 1_073_741_824 * w,
    decreases w,
{
    if w > 0 {
        lemma_window_energy(x, i, w - 1);
        let v = x[i + w - 1] as int;
        assert(0 <= v * v <= 1_073_741_824) by (nonlinear_arith)
            requires
                -32768 <= v <= 32767,
        ;
    }
}

fn square_of(v: i16) -> (q: u128)
    ensures
        q == v * v,
        q <= 1_073_741_824,
{
    let w: i64 = v as i64;
    assert(0 <= w * w <= 1_073_741_824) by (nonlinear_arith)
        requires
            -32768 <= w <= 32767,
    ;
    (w * w) as u128
}

fn find_loudest(x: &[i16], w: usize, last: usize) -> (start: usize)
    requires
        last + w <= x@.len(),
    ensures
        start == loudest_start(x@, w as int, last as int),
        start <= last,
{
    let len: usize = x.len();
    let mut cur: u128 = 0;
    let mut k: usize = 0;
    while k < w
        invariant
            k <= w,
            last + w <= x@.len(),
            cur == window_energy(x@, 0, k as int),
            cur <= 1_073_741_824 * k,
        decreases w - k,
    {
        cur = cur + square_of(x[k]);
        k += 1;
    }
    let mut best: usize = 0;
    let mut best_e: u128 = cur;
    let mut i: usize = 0;
    while i < last
        invariant
            i <= last,
            last + w <= len,
            len == x@.len(),
            best <= i,
            cur == window_energy(x@, i as int, w as int),
            best == loudest_start(x@, w as int, i as int),
            best_e == window_energy(x@, best as int, w as int),
        decreases last - i,
    {
        proof {
            lemma_window_energy(x@, i as int, w as int);
            lemma_window_energy(x@, i + 1, w as int);
        }
        i += 1;
        let add: u128 = square_of(x[i + w - 1]);
        let sub: u128 = square_of(x[i - 1]);
        cur = cur + add - sub;
        if cur > best_e {
            best_e = cur;
            best = i;
        }
    }
    best
}

/// Plans the fingerprint of a track.
pub fn plan_fingerprint(x: &[i16], sr: u32, win_ms: u32) -> (plan: Option<FingerprintPlan>)
    ensures
        plan == plan_of(x@, sr as int, win_ms as int),
        plan matches Some(p) ==> p.start + p.win_len <= x@.len() && p.frames >= 1 && p.hop_len
            >= 1 && p.band_size >= 1 && p.k_max < p.frame_len && p.start + (p.frames - 1)
            * p.hop_len + p.frame_len <= x@.len(),
{
    let len: usize = x.len();
    if len == 0 || sr == 0 {
        return None;
    }
    let seek_ms: u128 = if win_ms as u128 + 1000 > 7000 {
        win_ms as u128 + 1000
    } else {
        7000
    };
    assert(win_ms * sr <= 0xFFFF_FFFF * 0xFFFF_FFFF && seek_ms * sr <= 0x1_0000_1B57
        * 0xFFFF_FFFF) by (nonlinear_arith)
        requires
            0 <= win_ms <= 0xFFFF_FFFF,
            0 <= sr <= 0xFFFF_FFFF,
            0 <= seek_ms <= 0x1_0000_1B57,
    ;
    let win_wide: u64 = (win_ms as u64) * (sr as u64) / 1000;
    let seek_wide: u128 = seek_ms * (sr as u128) / 1000;
    let frame_target: u64 = (2 * ((sr as u64) * 23) + 1000) / 2000;
    let frame_wide: u64 = next_pow2_u64(
        if frame_target > 256 {
            frame_target
        } else {
            256
        },
    );
    proof {
        lemma_next_pow2(max_int(round_div(sr as int * 23, 1000), 256));
    }
    if win_wide < 512 || (len as u64) < win_wide || win_wide < frame_wide {
        return None;
    }
    let win_len: usize = win_wide as usize;
    let frame_len: usize = frame_wide as usize;
    let reach: usize = if seek_wide < len as u128 {
        seek_wide as usize
    } else {
        len
    };
    let search_len: usize = if reach > win_len {
        reach
    } else {
        win_len
    };
    let start = find_loudest(x, win_len, search_len - win_len);
    let hop_len: usize = frame_len / 2;
    let by_freq: u64 = 6000 * frame_wide / (sr as u64);
    let below_top: u64 = frame_wide / 2 - 1;
    let capped: u64 = if by_freq < below_top {
        by_freq
    } else {
        below_top
    };
    let k_max: usize = if capped > 8 {
        capped as usize
    } else {
        8
    };
    let band_size: usize = if k_max / FP_BANDS > 1 {
        k_max / FP_BANDS
    } else {
        1
    };
    let frames: usize = (win_len - frame_len) / hop_len + 1;
    proof {
        let span = win_len - frame_len;
        let h = hop_len as int;
        assert((frames - 1) * h <= span) by (nonlinear_arith)
            requires
                frames - 1 == span / h,
                h > 0,
                span >= 0,
        ;
    }
    Some(FingerprintPlan { start, win_len, frame_len, hop_len, k_max, band_size, frames })
}

/// Band of spectrum bin `k`: bins are dealt out `band_size` at a time, the
/// last band taking what is left.
pub open spec fn band_of(k: int, band_size: int) -> int {
    min_int(k / band_size, FP_BANDS as int - 1)
}

/// Power that the first `n` spectrum bins put into band `b`.
pub open spec fn band_energy(power: Seq<u64>, band_size: int, b: int, n: int) -> int
    decreases n,
{
    if n <= 0 {
        0
    } else {
        band_energy(power, band_size, b, n - 1) + if band_of(n - 1, band_size) == b {
            power[n - 1] as int
        } else {
            0
        }
    }
}

/// The energies of all bands, from the first `k_max` bins of a spectrum.
pub open spec fn band_energies(power: Seq<u64>, k_max: int, band_size: int) -> Seq<int> {
    Seq::new(
        FP_BANDS as nat,
        |b: int| band_energy(power, band_size, b, min_int(k_max, power.len() as int)),
    )
}

/// The first band of the highest energy.
pub open spec fn band_peak_of(power: Seq<u64>, k_max: int, band_size: int) -> int {
    first_max(band_energies(power, k_max, band_size), 0, FP_BANDS as int - 1)
}

/// The loudest band of one frame, given the power of its spectrum bins;
/// among equally loud bands the lowest wins.
pub fn band_peak(power: &[u64], k_max: usize, band_size: usize) -> (band: u8)
    requires
        band_size >= 1,
    ensures
        band == band_peak_of(power@, k_max as int, band_size as int),
        band < FP_BANDS,
{
    let n: usize = if k_max < power.len() {
        k_max
    } else {
        power.len()
    };
    let mut energy: Vec<u128> = Vec::new();
    let mut b: usize = 0;
    while b < FP_BANDS
        invariant
            b <= FP_BANDS,
            energy@.len() == b,
            forall|j: int| 0 <= j < b ==> #[trigger] energy@[j] == 0,
        decreases FP_BANDS - b,
    {
        energy.push(0);
        b += 1;
    }
    let mut k: usize = 0;
    while k < n
        invariant
            k <= n <= power@.len(),
            band_size >= 1,
            energy@.len() == FP_BANDS,
            forall|j: int|
                0 <= j < FP_BANDS ==> #[trigger] energy@[j] == band_energy(
                    power@,
                    band_size as int,
                    j,
                    k as int,
                ) && energy@[j] <= k * 0xFFFF_FFFF_FFFF_FFFF,
        decreases n - k,
    {
        let slot: usize = if k / band_size < FP_BANDS - 1 {
            k / band_size
        } else {
            FP_BANDS - 1
        };
        let e: u128 = energy[slot];
        energy.set(slot, e + power[k] as u128);
        k += 1;
    }
    let ghost levels = band_energies(power@, k_max as int, band_size as int);
    let mut best: usize = 0;
    let mut j: usize = 0;
    while j < FP_BANDS - 1
        invariant
            best <= j <= FP_BANDS - 1,
            energy@.len() == FP_BANDS,
            levels.len() == FP_BANDS,
            forall|i: int| 0 <= i < FP_BANDS ==> #[trigger] energy@[i] == levels[i],
            best == first_max(levels, 0, j as int),
        decreases FP_BANDS - 1 - j,
    {
        j += 1;
        if energy[j] > energy[best] {
            best = j;
        }
    }
    best as u8
}

/// The loudest band of every frame, given the power spectra of the frames.
pub open spec fn bins_of(spectra: Seq<Vec<u64>>, k_max: int, band_size: int) -> Seq<u8> {
    Seq::new(spectra.len(), |f: int| band_peak_of(spectra[f]@, k_max, band_size) as u8)
}

/// The bins of a fingerprint from the power spectra of its frames.
pub fn band_peaks(spectra: &Vec<Vec<u64>>, plan: &FingerprintPlan) -> (bins: Vec<u8>)
    requires
        plan.band_size >= 1,
    ensures
        bins@ == bins_of(spectra@, plan.k_max as int, plan.band_size as int),
{
    let mut bins: Vec<u8> = Vec::new();
    let mut f: usize = 0;
    while f < spectra.len()
        invariant
            f <= spectra@.len(),
            plan.band_size >= 1,
            bins@.len() == f,
            forall|i: int|
                0 <= i < f ==> #[trigger] bins@[i] == band_peak_of(
                    spectra@[i]@,
                    plan.k_max as int,
                    plan.band_size as int,
                ) as u8,
        decreases spectra@.len() - f,
    {
        bins.push(band_peak(spectra[f].as_slice(), plan.k_max, plan.band_size));
        f += 1;
    }
    assert(bins@ =~= bins_of(spectra@, plan.k_max as int, plan.band_size as int));
    bins
}

/// The same samples, framed into the same spectra, give the same plan and
/// the same bins.
pub proof fn lemma_same_samples_same_bins(
    x: Seq<i16>,
    y: Seq<i16>,
    sr: int,
    win_ms: int,
    spectra_x: Seq<Vec<u64>>,
    spectra_y: Seq<Vec<u64>>,
)
    requires
        x == y,
        spectra_x.len() == spectra_y.len(),
        forall|f: int| 0 <= f < spectra_x.len() ==> spectra_x[f]@ == spectra_y[f]@,
    ensures
        plan_of(x, sr, win_ms) == plan_of(y, sr, win_ms),
        forall|k_max: int, band_size: int|
            #[trigger] bins_of(spectra_x, k_max, band_size) == bins_of(
                spectra_y,
                k_max,
                band_size,
            ),
{
    assert forall|k_max: int, band_size: int|
        #[trigger] bins_of(spectra_x, k_max, band_size) == bins_of(
            spectra_y,
            k_max,
            band_size,
        ) by {
        assert(bins_of(spectra_x, k_max, band_size) =~= bins_of(spectra_y, k_max, band_size));
    }
}

/// Time between frames, in microseconds, for a hop of `hop_len` samples.
pub open spec fn hop_us_of(hop_len: int, sr: int) -> int {
    round_div(hop_len * 1_000_000, sr)
}

/// Time of sample `start`, in milliseconds.
pub open spec fn offset_ms_of(start: int, sr: int) -> int {
    round_div(start * 1000, sr)
}

/// The fingerprint that a plan and the loudest band of each of its frames
/// make; none without frames, without a sample rate, or when the times do
/// not fit their fields.
pub fn assemble_fingerprint(plan: &FingerprintPlan, sr: u32, bins: Vec<u8>) -> (fp: Option<
    Fingerprint,
>)
    ensures
        fp is Some <==> bins@.len() > 0 && sr > 0 && hop_us_of(plan.hop_len as int, sr as int)
            <= u32::MAX && offset_ms_of(plan.start as int, sr as int) <= u32::MAX,
        fp matches Some(f) ==> f.fp_type@ == "bandpeak_v1"@ && f.bands == FP_BANDS && f.bins@
            == bins@ && f.hop_us == hop_us_of(plan.hop_len as int, sr as int) && f.offset_ms
            == offset_ms_of(plan.start as int, sr as int),
{
    if bins.len() == 0 || sr == 0 {
        return None;
    }
    let hop_us: u128 = round_div_u128((plan.hop_len as u128) * 1_000_000, sr as u128);
    let offset_ms: u128 = round_div_u128((plan.start as u128) * 1000, sr as u128);
    if hop_us > u32::MAX as u128 || offset_ms > u32::MAX as u128 {
        return None;
    }
    Some(
        Fingerprint {
            fp_type: "bandpeak_v1".to_owned(),
            bands: FP_BANDS,
            hop_us: hop_us as u32,
            offset_ms: offset_ms as u32,
            bins,
        },
    )
}

/// Builds the fingerprint of a track from its plan and the power spectra
/// of the plan's frames, one spectrum for every frame; none where their
/// number is not the plan's.
pub fn make_fingerprint(plan: &FingerprintPlan, sr: u32, spectra: &Vec<Vec<u64>>) -> (fp: Option<
    Fingerprint,
>)
    requires
        plan.band_size >= 1,
    ensures
        fp is Some <==> spectra@.len() == plan.frames && plan.frames > 0 && sr > 0 && hop_us_of(
            plan.hop_len as int,
            sr as int,
        ) <= u32::MAX && offset_ms_of(plan.start as int, sr as int) <= u32::MAX,
        fp matches Some(f) ==> f.fp_type@ == "bandpeak_v1"@ && f.bands == FP_BANDS && f.bins@
            == bins_of(spectra@, plan.k_max as int, plan.band_size as int) && f.bins@.len()
            == plan.frames && f.hop_us == hop_us_of(plan.hop_len as int, sr as int) && f.offset_ms
            == offset_ms_of(plan.start as int, sr as int),
        fp matches Some(f) ==> forall|i: int| 0 <= i < f.bins@.len() ==> f.bins@[i] < FP_BANDS,
{
    if spectra.len() != plan.frames {
        return None;
    }
    let bins = band_peaks(spectra, plan);
    proof {
        assert forall|i: int| 0 <= i < bins@.len() implies bins@[i] < FP_BANDS by {
            lemma_first_max(
                band_energies(spectra@[i]@, plan.k_max as int, plan.band_size as int),
                0,
                FP_BANDS as int - 1,
            );
        }
    }
    assemble_fingerprint(plan, sr, bins)
}

} // verus!
