//! Impulse probing: what the answer of a room to a click says about
//! presence.

use vstd::prelude::*;
use crate::units::{min_int, round_div, round_div_u128, wide_product, MICRO, SOUND_MM_PER_S};

verus! {

/// Lags that must lie between two peaks.
pub const PEAK_SPACING: usize = 20;

/// Lag `i` is a peak: above the threshold and above both neighbours.
pub open spec fn is_local_peak(c: Seq<u32>, thr: int, i: int) -> bool {
    0 < i < c.len() - 1 && c[i] > thr && c[i] > c[i - 1] && c[i] > c[i + 1]
}

/// The peaks among the lags below `n`, each more than the spacing behind the
/// one before it, with their correlations.
pub open spec fn peaks_upto(c: Seq<u32>, thr: int, n: int) -> Seq<(usize, u32)>
    decreases n,
{
    if n <= 0 {
        Seq::empty()
    } else {
        let before = peaks_upto(c, thr, n - 1);
        if is_local_peak(c, thr, n - 1) && (before.len() == 0 || n - 1 - before.last().0
            > PEAK_SPACING) {
            before.push(((n - 1) as usize, c[n - 1]))
        } else {
            before
        }
    }
}

/// The peaks of a correlation, in millionths, above a threshold.
pub fn find_correlation_peaks(c: &Vec<u32>, threshold: u32) -> (peaks: Vec<(usize, u32)>)
    ensures
        peaks@ == peaks_upto(c@, threshold as int, c@.len() as int),
{
    let n: usize = c.len();
    let mut peaks: Vec<(usize, u32)> = Vec::new();
    let mut i: usize = 0;
    while i < n
        invariant
            i <= n,
            n == c@.len(),
            peaks@ == peaks_upto(c@, threshold as int, i as int),
            forall|k: int| 0 <= k < peaks@.len() ==> (#[trigger] peaks@[k]).0 < i,
        decreases n - i,
    {
        if i > 0 && i < n - 1 && c[i] > threshold && c[i] > c[i - 1] && c[i] > c[i + 1] {
            let count: usize = peaks.len();
            if count == 0 || i - peaks[count - 1].0 > PEAK_SPACING {
                peaks.push((i, c[i]));
            }
        }
        i += 1;
    }
    peaks
}

/// A reflection at lag `lag` comes from between `min_mm` and `max_mm` away.
pub open spec fn in_range(lag: int, sr: int, min_mm: int, max_mm: int) -> bool {
    2 * sr * min_mm <= lag * SOUND_MM_PER_S as int <= 2 * sr * max_mm
}

/// The first of the peaks `from..` that is in range.
pub open spec fn first_in_range(
    peaks: Seq<(usize, u32)>,
    from: int,
    sr: int,
    min_mm: int,
    max_mm: int,
) -> Option<(usize, u32)>
    decreases peaks.len() - from,
{
    if from < 0 || from >= peaks.len() {
        None
    } else if in_range(peaks[from].0 as int, sr, min_mm, max_mm) {
        Some(peaks[from])
    } else {
        first_in_range(peaks, from + 1, sr, min_mm, max_mm)
    }
}

/// What the peaks say: the first peak is the direct sound; the first peak
/// behind it that is in range is the reflection, reported as its distance in
/// millimetres and its confidence, which is its correlation kept within one.
/// Nothing without a sample rate.
pub open spec fn reflection_of(peaks: Seq<(usize, u32)>, sr: int, min_mm: int, max_mm: int)
    -> Option<(u32, u32)> {
    match first_in_range(peaks, 1, sr, min_mm, max_mm) {
        Some((lag, strength)) => if sr <= 0 {
            None
        } else {
            Some(
                (
                    round_div(lag as int * SOUND_MM_PER_S as int, 2 * sr) as u32,
                    min_int(strength as int, MICRO as int) as u32,
                ),
            )
        },
        None => None,
    }
}

/// Reads the reflection off the peaks of a correlation sampled at `sr` Hz.
pub fn pick_reflection(peaks: &Vec<(usize, u32)>, sr: u32, min_mm: u32, max_mm: u32) -> (out:
    Option<(u32, u32)>)
    ensures
        out == reflection_of(peaks@, sr as int, min_mm as int, max_mm as int),
{
    if sr == 0 {
        return None;
    }
    let mut k: usize = 1;
    while k < peaks.len()
        invariant
            1 <= k,
            sr > 0,
            first_in_range(peaks@, k as int, sr as int, min_mm as int, max_mm as int)
                == first_in_range(peaks@, 1, sr as int, min_mm as int, max_mm as int),
        decreases peaks@.len() - k,
    {
        let (lag, strength) = peaks[k];
        let span: u128 = (lag as u128) * 343_000;
        let rate: u128 = 2 * (sr as u128);
        let near: u128 = 2 * (wide_product(sr, min_mm) as u128);
        let far: u128 = 2 * (wide_product(sr, max_mm) as u128);
        assert(near == 2 * sr * min_mm && far == 2 * sr * max_mm && far == rate * max_mm)
            by (nonlinear_arith)
            requires
                near == 2 * (sr * min_mm),
                far == 2 * (sr * max_mm),
                rate == 2 * sr,
        ;
        if near <= span && span <= far {
            let distance: u128 = round_div_u128(span, rate);
            assert(distance <= max_mm) by (nonlinear_arith)
                requires
                    distance as int == (2 * span as int + rate as int) / (2 * rate as int),
                    rate >= 1,
                    0 <= span <= rate * max_mm,
            ;
            let confidence: u32 = if strength > 1_000_000 {
                1_000_000
            } else {
                strength
            };
            return Some((distance as u32, confidence));
        }
        k += 1;
    }
    None
}

/// A window of probes counts as present when at least half of the expected
/// probes detected a reflection.
pub open spec fn window_present_of(detected: int, expected: int) -> bool {
    2 * detected >= (if expected < 1 {
        1
    } else {
        expected
    })
}

/// Decides a window of probes.
pub fn analyze_window(detected: usize, expected: usize) -> (present: bool)
    ensures
        present == window_present_of(detected as int, expected as int),
{
    let need: u128 = if expected < 1 {
        1
    } else {
        expected as u128
    };
    2 * (detected as u128) >= need
}

} // verus!
