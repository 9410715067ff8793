//! What happens to captured audio before it reaches a ring: the first
//! channel is picked, samples are brought to signed 16 bits, and the stream
//! is cut into chunks of one tick.

use vstd::prelude::*;
use crate::units::{max_int, wide_product};

verus! {

/// The first channel of interleaved frames of `channels` samples each; a
/// frame cut short at the end is left out.
pub open spec fn first_channel_of<T>(data: Seq<T>, channels: int) -> Seq<T> {
    Seq::new((data.len() as int / channels) as nat, |f: int| data[f * channels])
}

/// Picks the first channel of interleaved frames.
pub fn first_channel<T: Copy>(data: &[T], channels: usize) -> (mono: Vec<T>)
    requires
        channels >= 1,
    ensures
        mono@ == first_channel_of(data@, channels as int),
{
    let len: usize = data.len();
    let frames: usize = len / channels;
    let mut mono: Vec<T> = Vec::new();
    let mut f: usize = 0;
    while f < frames
        invariant
            f <= frames,
            channels >= 1,
            len == data@.len(),
            frames == data@.len() as int / channels as int,
            mono@.len() == f,
            forall|i: int| 0 <= i < f ==> #[trigger] mono@[i] == data@[i * channels],
        decreases frames - f,
    {
        assert(f * channels + channels <= data@.len()) by (nonlinear_arith)
            requires
                f + 1 <= frames,
                frames == data@.len() as int / channels as int,
                channels >= 1,
        ;
        mono.push(data[f * channels]);
        f += 1;
    }
    assert(mono@ =~= first_channel_of(data@, channels as int));
    mono
}

/// The rate `want` lies within one of the ranges of rates, each given as
/// `(lowest, highest)`.
pub open spec fn rate_within(ranges: Seq<(u32, u32)>, want: u32) -> bool {
    exists|i: int| 0 <= i < ranges.len() && (#[trigger] ranges[i]).0 <= want <= ranges[i].1
}

/// The rate to ask a device for: `want` if one of the ranges that the device
/// supports holds it, else none, which leaves the device at its default.
pub fn maybe_rate_supported(ranges: &Vec<(u32, u32)>, want: u32) -> (rate: Option<u32>)
    ensures
        rate is Some <==> rate_within(ranges@, want),
        rate matches Some(r) ==> r == want,
{
    let mut i: usize = 0;
    while i < ranges.len()
        invariant
            i <= ranges@.len(),
            forall|j: int| 0 <= j < i ==> !((#[trigger] ranges@[j]).0 <= want <= ranges@[j].1),
        decreases ranges@.len() - i,
    {
        if ranges[i].0 <= want && want <= ranges[i].1 {
            return Some(want);
        }
        i += 1;
    }
    None
}

/// An unsigned 16-bit sample on the signed scale: zero maps to the most
/// negative value, 65535 to the most positive, the middle to the nearest.
pub open spec fn signed_of(s: u16) -> int {
    let scaled = (2 * s - 65_535) * 32_768;
    let nearest = if scaled >= 0 {
        (2 * scaled + 65_535) / 131_070
    } else {
        -((2 * (-scaled) + 65_535) / 131_070)
    };
    if nearest > 32_767 {
        32_767
    } else {
        nearest
    }
}

/// Brings an unsigned 16-bit sample to the signed scale.
pub fn unsigned_sample(s: u16) -> (v: i16)
    ensures
        v == signed_of(s),
{
    let scaled: i64 = (2 * (s as i64) - 65_535) * 32_768;
    let nearest: i64 = if scaled >= 0 {
        ((2 * (scaled as u64) + 65_535) / 131_070) as i64
    } else {
        -(((2 * ((-scaled) as u64) + 65_535) / 131_070) as i64)
    };
    if nearest > 32_767 {
        32_767
    } else {
        nearest as i16
    }
}

/// Samples in one tick of `tick_ms` milliseconds at `sr` Hz, at least one.
pub open spec fn chunk_len_of(sr: int, tick_ms: int) -> int {
    max_int(sr * tick_ms / 1000, 1)
}

/// Number of samples in one tick.
pub fn chunk_len(sr: u32, tick_ms: u32) -> (n: usize)
    requires
        chunk_len_of(sr as int, tick_ms as int) <= usize::MAX,
    ensures
        n == chunk_len_of(sr as int, tick_ms as int),
        n >= 1,
{
    let n: u64 = wide_product(sr, tick_ms) / 1000;
    if n == 0 {
        1
    } else {
        n as usize
    }
}

/// Cuts a stream that arrives in blocks of any length into chunks of a
/// fixed length.
pub struct Chunker {
    leftover: Vec<i16>,
    chunk: usize,
}

impl Chunker {
    /// The samples that wait for a chunk to fill.
    pub closed spec fn view(&self) -> Seq<i16> {
        self.leftover@
    }

    /// Length of a chunk.
    pub closed spec fn spec_chunk(&self) -> int {
        self.chunk as int
    }

    /// Less than a chunk is waiting.
    pub open spec fn well_formed(&self) -> bool {
        self.spec_chunk() >= 1 && self@.len() < self.spec_chunk()
    }

    /// A chunker with nothing waiting.
    pub fn new(chunk: usize) -> (c: Self)
        requires
            chunk >= 1,
        ensures
            c.well_formed(),
            c@ == Seq::<i16>::empty(),
            c.spec_chunk() == chunk,
    {
        Chunker { leftover: Vec::new(), chunk }
    }

    /// Takes a block; returns the chunks that are complete.
    pub fn push(&mut self, block: &[i16]) -> (chunks: Vec<Vec<i16>>)
        requires
            old(self).well_formed(),
        ensures
            final(self).well_formed(),
            final(self).spec_chunk() == old(self).spec_chunk(),
            chunks@.len() == (old(self)@ + block@).len() as int / old(self).spec_chunk(),
            forall|k: int|
                0 <= k < chunks@.len() ==> (#[trigger] chunks@[k])@ == (old(self)@ + block@).subrange(
                    k * old(self).spec_chunk(),
                    (k + 1) * old(self).spec_chunk(),
                ),
            final(self)@ == (old(self)@ + block@).subrange(
                chunks@.len() * old(self).spec_chunk(),
                (old(self)@ + block@).len() as int,
            ),
    {
        let ghost all = self.leftover@ + block@;
        let size: usize = self.chunk;
        let mut chunks: Vec<Vec<i16>> = Vec::new();
        let mut cur: Vec<i16> = Vec::new();
        let mut i: usize = 0;
        while i < self.leftover.len()
            invariant
                i <= self.leftover@.len(),
                self.leftover@.len() < size,
                all == self.leftover@ + block@,
                cur@ == all.subrange(0, i as int),
            decreases self.leftover@.len() - i,
        {
            cur.push(self.leftover[i]);
            i += 1;
        }
        let held: usize = self.leftover.len();
        assert(chunks@.len() * size == 0) by (nonlinear_arith)
            requires
                chunks@.len() == 0,
        ;
        let mut j: usize = 0;
        while j < block.len()
            invariant
                j <= block@.len(),
                size >= 1,
                held < size,
                held + block@.len() == all.len(),
                all == self.leftover@ + block@,
                held == self.leftover@.len(),
                cur@.len() < size,
                chunks@.len() * size + cur@.len() == held + j,
                cur@ == all.subrange(chunks@.len() * size, held + j),
                forall|k: int|
                    0 <= k < chunks@.len() ==> (#[trigger] chunks@[k])@ == all.subrange(
                        k * size,
                        (k + 1) * size,
                    ),
            decreases block@.len() - j,
        {
            assert(all[held + j] == block@[j as int]);
            cur.push(block[j]);
            j += 1;
            if cur.len() == size {
                let ghost n = chunks@.len() as int;
                assert((n + 1) * size == n * size + size) by (nonlinear_arith);
                let mut done: Vec<i16> = Vec::new();
                core::mem::swap(&mut done, &mut cur);
                chunks.push(done);
                assert(cur@ =~= all.subrange(chunks@.len() * size, held + j));
            }
        }
        proof {
            let n = chunks@.len() as int;
            let total = all.len() as int;
            assert(total / (size as int) == n) by (nonlinear_arith)
                requires
                    n * size + cur@.len() == total,
                    0 <= cur@.len() < size,
                    n >= 0,
            ;
        }
        self.leftover = cur;
        chunks
    }
}

/// A signal of `x` sampled at `sr_in` Hz, sampled anew at `sr_out` Hz by
/// linear interpolation between neighbours, values rounded down; behind the
/// last sample the signal holds its last value.
pub open spec fn resampled(x: Seq<i16>, sr_in: int, sr_out: int) -> Seq<i16> {
    if x.len() == 0 || sr_in == 0 || sr_out == 0 || sr_in == sr_out {
        x
    } else {
        Seq::new(
            max_int(x.len() * sr_out / sr_in, 1) as nat,
            |i: int|
                {
                    let at = i * sr_in / sr_out;
                    let part = i * sr_in % sr_out;
                    if at + 1 >= x.len() {
                        x.last()
                    } else {
                        (x[at] + (x[at + 1] - x[at]) * part / sr_out) as i16
                    }
                },
        )
    }
}

/// Resamples a mono signal by linear interpolation.
pub fn resample_linear_mono(x: &[i16], sr_in: u32, sr_out: u32) -> (y: Vec<i16>)
    requires
        resampled(x@, sr_in as int, sr_out as int).len() <= usize::MAX,
    ensures
        y@ == resampled(x@, sr_in as int, sr_out as int),
{
    let len: usize = x.len();
    let mut y: Vec<i16> = Vec::new();
    if len == 0 || sr_in == 0 || sr_out == 0 || sr_in == sr_out {
        let mut k: usize = 0;
        while k < len
            invariant
                k <= len,
                len == x@.len(),
                y@ == x@.subrange(0, k as int),
            decreases len - k,
        {
            y.push(x[k]);
            k += 1;
        }
        assert(x@.subrange(0, len as int) =~= x@);
        return y;
    }
    let rate_in: u128 = sr_in as u128;
    let rate_out: u128 = sr_out as u128;
    assert((len as u128) * rate_out <= 0xFFFF_FFFF_FFFF_FFFFu128 * 0xFFFF_FFFF) by (nonlinear_arith)
        requires
            0 <= len <= 0xFFFF_FFFF_FFFF_FFFF,
            0 <= rate_out <= 0xFFFF_FFFF,
    ;
    let fit: u128 = (len as u128) * rate_out / rate_in;
    let n_out: usize = if fit == 0 {
        1
    } else {
        fit as usize
    };
    let ghost want = resampled(x@, sr_in as int, sr_out as int);
    let mut i: usize = 0;
    while i < n_out
        invariant
            i <= n_out,
            len == x@.len(),
            len > 0,
            rate_in == sr_in,
            rate_out == sr_out,
            sr_in > 0,
            sr_out > 0,
            sr_in != sr_out,
            n_out == want.len(),
            n_out <= usize::MAX,
            want == resampled(x@, sr_in as int, sr_out as int),
            y@.len() == i,
            forall|k: int| 0 <= k < i ==> #[trigger] y@[k] == want[k],
        decreases n_out - i,
    {
        assert((i as u128) * rate_in <= 0xFFFF_FFFF_FFFF_FFFFu128 * 0xFFFF_FFFF) by (nonlinear_arith)
            requires
                0 <= i <= 0xFFFF_FFFF_FFFF_FFFF,
                0 <= rate_in <= 0xFFFF_FFFF,
        ;
        let pos: u128 = (i as u128) * rate_in;
        let at: u128 = pos / rate_out;
        let part: u128 = pos % rate_out;
        if at + 1 >= len as u128 {
            y.push(x[len - 1]);
        } else {
            let a: i64 = x[at as usize] as i64;
            let b: i64 = x[at as usize + 1] as i64;
            let step: i64 = lerp_step(b - a, part as u32, sr_out);
            y.push((a + step) as i16);
        }
        i += 1;
    }
    assert(y@ =~= want);
    y
}

/// `diff * part / whole`, rounded down, for a part of the whole.
fn lerp_step(diff: i64, part: u32, whole: u32) -> (step: i64)
    requires
        -65_535 <= diff <= 65_535,
        part < whole,
    ensures
        step == diff * part / (whole as int),
        diff >= 0 ==> 0 <= step <= diff,
        diff < 0 ==> diff <= step <= 0,
{
    let p: i64 = part as i64;
    let w: i64 = whole as i64;
    assert(-65_535 * w <= diff * p <= 65_535 * w) by (nonlinear_arith)
        requires
            -65_535 <= diff <= 65_535,
            0 <= p < w,
    ;
    if diff >= 0 {
        let q: i64 = ((diff * p) as u64 / (w as u64)) as i64;
        assert(0 <= q <= diff) by (nonlinear_arith)
            requires
                q as int == (diff * p) / (w as int),
                0 <= p < w,
                diff >= 0,
        ;
        q
    } else {
        assert(0 <= (-diff) * p <= 65_535 * w) by (nonlinear_arith)
            requires
                -65_535 <= diff < 0,
                0 <= p < w,
        ;
        let num: u64 = ((-diff) * p) as u64;
        let q: i64 = ((num + (w as u64) - 1) / (w as u64)) as i64;
        proof {
            let n = num as int;
            let t = diff * p;
            assert(t == -n) by (nonlinear_arith)
                requires
                    n == (-diff) * p,
                    t == diff * p,
            ;
            let up = n + w - 1;
            assert(q * w <= up < q * w + w) by (nonlinear_arith)
                requires
                    q as int == up / (w as int),
                    w > 0,
                    up >= 0,
            ;
            let rem = t + q * w;
            assert(t == w * (-q) + rem) by (nonlinear_arith)
                requires
                    rem == t + q * w,
            ;
            vstd::arithmetic::div_mod::lemma_fundamental_div_mod_converse(t, w as int, -q, rem);
            assert(q <= -diff) by (nonlinear_arith)
                requires
                    q * w <= n + w - 1,
                    n == (-diff) * p,
                    0 <= p < w,
                    diff < 0,
                    q >= 0,
            ;
        }
        -q
    }
}

} // verus!
