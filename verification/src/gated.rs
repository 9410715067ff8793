//! Gated detection: the live playback is matched to a stored track by its
//! fingerprint, and presence is then estimated only inside that track's
//! stored segments.

use vstd::prelude::*;
use vstd::slice::slice_subrange;
use crate::aggregator::{window_cap_of, Vote};
use crate::config::Config;
use crate::estimator::{first_max, rms_above, rms_is_above};
use crate::fingerprint::{fp_similarity, samples_in, similarity, Fingerprint};
use crate::hysteresis::{rested, Event};
use crate::ring::RingBuffer;
use crate::scheduler::{
    detector_sound, fed, fed_event, tick_vote, Detector, DetectorModel,
};
use crate::units::{max_int, min_int, wide_product};

verus! {

/// How long after the last segment an alignment is kept, in milliseconds.
pub const ALIGNMENT_LINGER_MS: u64 = 60_000;

/// What is stored of one track: its segments as `(start_ms, end_ms)`,
/// ascending by start, and its fingerprint.
#[derive(Clone, Debug)]
pub struct SongWindows {
    pub url: String,
    pub segs: Vec<(u32, u32)>,
    pub fp: Fingerprint,
}

/// A lock of the live playback onto a stored track.
#[derive(Clone, Copy, Debug, PartialEq, Eq, Structural)]
pub struct Alignment {
    /// Index of the track among the stored ones.
    pub song: usize,
    /// When the lock was made, in milliseconds.
    pub aligned_at_ms: u64,
    /// Position in the track at that moment, in milliseconds.
    pub offset_ms: u32,
}

/// Where a tick falls with respect to the segments of the aligned track.
#[derive(Clone, Copy, Debug, PartialEq, Eq, Structural)]
pub enum Gate {
    /// Within a segment widened by the guard.
    Inside,
    /// Outside every segment.
    Outside,
    /// Outside, and more than the linger time behind the last segment.
    Expired,
}

/// Position in the track at time `now`.
pub open spec fn song_clock(al: Alignment, now: int) -> int {
    now - al.aligned_at_ms + al.offset_ms
}

/// At the instant of its alignment a track's clock shows the offset of its
/// stored fingerprint, and from then on it runs with the time.
pub proof fn lemma_clock_starts_at_offset(al: Alignment, later: int)
    ensures
        song_clock(al, al.aligned_at_ms as int) == al.offset_ms,
        song_clock(al, al.aligned_at_ms + later) == al.offset_ms + later,
{
}

/// The clock is within a segment widened by `guard` on both sides.
pub open spec fn inside_any(segs: Seq<(u32, u32)>, clock: int, guard: int) -> bool {
    exists|i: int| 0 <= i < segs.len() && inside_segment(segs[i], clock, guard)
}

/// The clock is within `seg` widened by `guard` on both sides.
pub open spec fn inside_segment(seg: (u32, u32), clock: int, guard: int) -> bool {
    seg.0 - guard <= clock <= seg.1 + guard
}

/// Where the clock falls: inside a widened segment; else, once it is more
/// than the linger time behind the end of the last segment, expired; else
/// outside.
pub open spec fn gate_of(segs: Seq<(u32, u32)>, clock: int, guard: int) -> Gate {
    if inside_any(segs, clock, guard) {
        Gate::Inside
    } else if segs.len() > 0 && clock > segs.last().1 + ALIGNMENT_LINGER_MS {
        Gate::Expired
    } else {
        Gate::Outside
    }
}

/// Decides where the clock falls.
pub fn gate(segs: &Vec<(u32, u32)>, clock: i128, guard_ms: u32) -> (g: Gate)
    requires
        -0x1_0000_0000_0000_0000_0000 <= clock <= 0x1_0000_0000_0000_0000_0000,
    ensures
        g == gate_of(segs@, clock as int, guard_ms as int),
{
    let mut i: usize = 0;
    while i < segs.len()
        invariant
            i <= segs@.len(),
            forall|j: int| 0 <= j < i ==> !inside_segment(#[trigger] segs@[j], clock as int, guard_ms as int),
        decreases segs@.len() - i,
    {
        let (a, b) = segs[i];
        if a as i128 - guard_ms as i128 <= clock && clock <= b as i128 + guard_ms as i128 {
            return Gate::Inside;
        }
        i += 1;
    }
    if segs.len() > 0 && clock > segs[segs.len() - 1].1 as i128 + 60_000 {
        Gate::Expired
    } else {
        Gate::Outside
    }
}

/// The values of the similarities as mathematical integers.
pub open spec fn sim_ints(sims: Seq<u32>) -> Seq<int> {
    sims.map_values(|v: u32| v as int)
}

/// The largest of the first `n` similarities other than the one at `skip`;
/// zero when there is none.
pub open spec fn runner_upto(sims: Seq<u32>, n: int, skip: int) -> int
    decreases n,
{
    if n <= 0 {
        0
    } else {
        let rest = runner_upto(sims, n - 1, skip);
        if n - 1 != skip && sims[n - 1] > rest {
            sims[n - 1] as int
        } else {
            rest
        }
    }
}

/// The similarity of `live` to the fingerprint of every stored track.
pub open spec fn similarities_of(live: Fingerprint, songs: Seq<SongWindows>) -> Seq<u32> {
    Seq::new(songs.len(), |i: int| similarity(live, songs[i].fp) as u32)
}

/// The track that the similarities single out: the first of the highest
/// similarity, provided that this is at least `thr` and at least `margin`
/// above every other (above zero, where there is no other).
pub open spec fn matched(sims: Seq<u32>, thr: int, margin: int) -> Option<usize> {
    if sims.len() == 0 {
        None
    } else {
        let best = first_max(sim_ints(sims), 0, sims.len() - 1);
        let top = sims[best] as int;
        if top >= thr && top - runner_upto(sims, sims.len() as int, best) >= margin {
            Some(best as usize)
        } else {
            None
        }
    }
}

/// Picks the track that the similarities single out.
pub fn pick_match(sims: &Vec<u32>, fp_thr: u32, fp_margin: u32) -> (song: Option<usize>)
    ensures
        song == matched(sims@, fp_thr as int, fp_margin as int),
        song matches Some(i) ==> i < sims@.len(),
{
    let n: usize = sims.len();
    if n == 0 {
        return None;
    }
    let mut best: usize = 0;
    let mut j: usize = 0;
    while j < n - 1
        invariant
            best <= j <= n - 1,
            n == sims@.len(),
            best == first_max(sim_ints(sims@), 0, j as int),
        decreases n - 1 - j,
    {
        j += 1;
        assert(sim_ints(sims@)[j as int] == sims@[j as int]);
        assert(sim_ints(sims@)[best as int] == sims@[best as int]);
        if sims[j] > sims[best] {
            best = j;
        }
    }
    let mut second: u32 = 0;
    let mut k: usize = 0;
    while k < n
        invariant
            k <= n,
            n == sims@.len(),
            second == runner_upto(sims@, k as int, best as int),
        decreases n - k,
    {
        if k != best && sims[k] > second {
            second = sims[k];
        }
        k += 1;
    }
    let top: u32 = sims[best];
    if top >= fp_thr && top as i64 - second as i64 >= fp_margin as i64 {
        Some(best)
    } else {
        None
    }
}

/// The part of the loopback `x` to fingerprint, as `(start, len)`: its
/// newest seven seconds, or the fingerprint window of `win_ms` milliseconds
/// if that is longer; nothing while the loopback holds less than the window
/// or the root mean square of that part is no more than `level` millionths
/// of full scale.
pub open spec fn arm_window_of(x: Seq<i16>, sr: int, win_ms: int, level: int) -> Option<
    (usize, usize),
> {
    let win_len = samples_in(win_ms, sr);
    let need = max_int(min_int(7 * sr, x.len() as int), win_len);
    if x.len() >= win_len && rms_above(x.subrange(x.len() - need, x.len() as int), need, level) {
        Some(((x.len() - need) as usize, need as usize))
    } else {
        None
    }
}

/// Decides whether the loopback is fit for matching, and which part of it.
pub fn arm_window(x: &[i16], sr: u32, win_ms: u32, level: u32) -> (part: Option<(usize, usize)>)
    ensures
        part == arm_window_of(x@, sr as int, win_ms as int, level as int),
        part matches Some((start, len)) ==> start + len == x@.len(),
{
    let len: usize = x.len();
    let win_len: u64 = wide_product(win_ms, sr) / 1000;
    if (len as u64) < win_len {
        return None;
    }
    let seven: u64 = 7 * (sr as u64);
    let reach: u64 = if seven < len as u64 {
        seven
    } else {
        len as u64
    };
    let need: usize = if reach > win_len {
        reach as usize
    } else {
        win_len as usize
    };
    let newest = slice_subrange(x, len - need, len);
    if rms_is_above(newest, need, level) {
        Some((len - need, need))
    } else {
        None
    }
}

/// No stored track has a usable fingerprint.
#[derive(Clone, Copy, Debug, PartialEq, Eq, Structural)]
pub struct FingerprintMissing;

/// The gated controller as plain values.
pub struct GatedModel {
    pub aligned: Option<Alignment>,
    pub detector: DetectorModel,
}

/// A controller that waits for a track: no alignment, an empty window, and
/// an absent state whose first flip is not held back.
pub open spec fn unaligned(now: int, cfg: Config) -> GatedModel {
    GatedModel {
        aligned: None,
        detector: DetectorModel {
            window: Seq::empty(),
            state: rested(now, cfg.min_dwell_ms as int),
        },
    }
}

/// The alignment that a match at `now` makes: the matched track's clock
/// starts at the offset of its stored fingerprint.
pub open spec fn alignment_of(song: Option<usize>, now: u64, songs: Seq<SongWindows>) -> Option<
    Alignment,
> {
    match song {
        Some(i) => Some(
            Alignment { song: i, aligned_at_ms: now, offset_ms: songs[i as int].fp.offset_ms },
        ),
        None => None,
    }
}

/// Stored tracks, the current alignment, and the detector that runs inside
/// the aligned track's segments.
pub struct GatedController {
    songs: Vec<SongWindows>,
    aligned: Option<Alignment>,
    detector: Detector,
}

impl GatedController {
    /// The alignment and the detector as plain values.
    pub closed spec fn view(&self) -> GatedModel {
        GatedModel { aligned: self.aligned, detector: self.detector@ }
    }

    /// The stored tracks.
    pub closed spec fn songs(&self) -> Seq<SongWindows> {
        self.songs@
    }

    /// Number of ticks in a full window of the detector.
    pub closed spec fn spec_cap(&self) -> int {
        self.detector.spec_cap()
    }

    /// Agreement from which the detector's window counts as present.
    pub closed spec fn spec_agg_frac(&self) -> int {
        self.detector.spec_agg_frac()
    }

    /// The detector is sound and an alignment names a stored track.
    pub open spec fn well_formed(&self) -> bool {
        &&& detector_sound(self@.detector, self.spec_cap())
        &&& self@.aligned matches Some(al) ==> al.song < self.songs().len()
    }

    /// A controller that is not aligned yet; there must be a track to align
    /// to.
    pub fn new(songs: Vec<SongWindows>, cfg: &Config, now_ms: u64) -> (out: Result<
        Self,
        FingerprintMissing,
    >)
        requires
            cfg.tick_ms >= 1,
            (1000int / cfg.tick_ms as int) * cfg.window_sec <= usize::MAX,
        ensures
            out is Ok <==> songs@.len() > 0,
            out matches Ok(c) ==> c.well_formed() && c.songs() == songs@ && c@ == unaligned(
                now_ms as int,
                *cfg,
            ),
            out matches Ok(c) ==> c.spec_agg_frac() == cfg.agg_frac && c.spec_cap()
                == window_cap_of(cfg.window_sec as int, cfg.tick_ms as int),
    {
        if songs.len() == 0 {
            return Err(FingerprintMissing);
        }
        Ok(GatedController { songs, aligned: None, detector: Detector::new(cfg, now_ms) })
    }

    /// The alignment held, if any.
    pub fn alignment(&self) -> (al: Option<Alignment>)
        ensures
            al == self@.aligned,
    {
        self.aligned
    }

    /// The smoothed presence state.
    pub fn is_present(&self) -> (p: bool)
        ensures
            p == self@.detector.state.present,
    {
        self.detector.is_present()
    }

    /// The similarity of `live` to every stored fingerprint.
    pub fn similarities(&self, live: &Fingerprint) -> (sims: Vec<u32>)
        ensures
            sims@ == similarities_of(*live, self.songs()),
    {
        let mut sims: Vec<u32> = Vec::new();
        let mut i: usize = 0;
        while i < self.songs.len()
            invariant
                i <= self.songs@.len(),
                sims@.len() == i,
                forall|j: int|
                    0 <= j < i ==> #[trigger] sims@[j] == similarity(*live, self.songs@[j].fp),
            decreases self.songs@.len() - i,
        {
            sims.push(fp_similarity(live, &self.songs[i].fp));
            i += 1;
        }
        assert(sims@ =~= similarities_of(*live, self.songs@));
        sims
    }

    /// Tries to lock onto a stored track with the live fingerprint `live`.
    /// On a match the track's clock starts at the offset of the stored
    /// fingerprint; an alignment already held is kept.
    pub fn try_align(&mut self, live: &Fingerprint, now_ms: u64, cfg: &Config) -> (song: Option<
        usize,
    >)
        requires
            old(self).well_formed(),
        ensures
            final(self).well_formed(),
            final(self).songs() == old(self).songs(),
            final(self)@.detector == old(self)@.detector,
            final(self).spec_cap() == old(self).spec_cap(),
            final(self).spec_agg_frac() == old(self).spec_agg_frac(),
            old(self)@.aligned is Some ==> song is None,
            old(self)@.aligned is Some ==> final(self)@.aligned == old(self)@.aligned,
            old(self)@.aligned is None ==> song == matched(
                similarities_of(*live, old(self).songs()),
                cfg.fp_thr as int,
                cfg.fp_margin as int,
            ),
            old(self)@.aligned is None ==> final(self)@.aligned == alignment_of(
                song,
                now_ms,
                old(self).songs(),
            ),
    {
        if self.aligned.is_some() {
            return None;
        }
        let sims = self.similarities(live);
        let song = pick_match(&sims, cfg.fp_thr, cfg.fp_margin);
        match song {
            Some(i) => {
                self.aligned = Some(
                    Alignment {
                        song: i,
                        aligned_at_ms: now_ms,
                        offset_ms: self.songs[i].fp.offset_ms,
                    },
                );
            },
            None => {},
        }
        song
    }

    /// One tick while aligned. Inside a segment of the aligned track the
    /// presence pipeline runs on the two rings; outside, an empty vote is
    /// pushed; far behind the last segment the alignment is dropped as well
    /// and the presence state put back to absent. Without an alignment, and
    /// on rings of different sample rates, nothing changes.
    pub fn tick(
        &mut self,
        reference: &RingBuffer<i16>,
        mic: &RingBuffer<i16>,
        frame_len: usize,
        now_ms: u64,
        cfg: &Config,
    ) -> (event: Option<Event>)
        requires
            old(self).well_formed(),
        ensures
            final(self).well_formed(),
            final(self).songs() == old(self).songs(),
            final(self).spec_cap() == old(self).spec_cap(),
            final(self).spec_agg_frac() == old(self).spec_agg_frac(),
            final(self)@ == gated_tick(
                old(self)@,
                old(self).songs(),
                old(self).spec_cap(),
                old(self).spec_agg_frac(),
                reference@,
                mic@,
                reference.spec_sample_rate() as int,
                mic.spec_sample_rate() as int,
                frame_len as int,
                now_ms as int,
                *cfg,
            ),
            event == gated_event(
                old(self)@,
                old(self).songs(),
                old(self).spec_cap(),
                old(self).spec_agg_frac(),
                reference@,
                mic@,
                reference.spec_sample_rate() as int,
                mic.spec_sample_rate() as int,
                frame_len as int,
                now_ms as int,
                *cfg,
            ),
    {
        let al = match self.aligned {
            Some(al) => al,
            None => {
                return None;
            },
        };
        let clock: i128 = now_ms as i128 - al.aligned_at_ms as i128 + al.offset_ms as i128;
        match gate(&self.songs[al.song].segs, clock, cfg.guard_ms) {
            Gate::Inside => self.detector.tick(reference, mic, frame_len, now_ms, cfg),
            Gate::Outside => self.detector.feed(None, now_ms, cfg),
            Gate::Expired => {
                let event = self.detector.feed(None, now_ms, cfg);
                self.aligned = None;
                self.detector.reset_state(now_ms, cfg);
                event
            },
        }
    }
}

/// The vote that a gated tick pushes: the estimate inside a segment, none
/// outside.
pub open spec fn gated_vote(
    g: Gate,
    reference: Seq<i16>,
    mic: Seq<i16>,
    frame_len: int,
    sr: int,
    cfg: Config,
) -> Vote {
    if g == Gate::Inside {
        tick_vote(reference, mic, frame_len, sr, cfg)
    } else {
        None
    }
}

/// Whatever the rings hold, a tick whose clock is outside every widened
/// segment pushes an empty vote.
pub proof fn lemma_votes_only_inside(
    segs: Seq<(u32, u32)>,
    clock: int,
    guard: int,
    reference: Seq<i16>,
    mic: Seq<i16>,
    frame_len: int,
    sr: int,
    cfg: Config,
)
    requires
        !inside_any(segs, clock, guard),
    ensures
        gated_vote(gate_of(segs, clock, guard), reference, mic, frame_len, sr, cfg) is None,
{
}

/// The controller after one tick.
pub open spec fn gated_tick(
    m: GatedModel,
    songs: Seq<SongWindows>,
    cap: int,
    agg_frac: int,
    reference: Seq<i16>,
    mic: Seq<i16>,
    ref_sr: int,
    mic_sr: int,
    frame_len: int,
    now: int,
    cfg: Config,
) -> GatedModel {
    match m.aligned {
        None => m,
        Some(al) => {
            let g = gate_of(songs[al.song as int].segs@, song_clock(al, now), cfg.guard_ms as int);
            let vote = gated_vote(g, reference, mic, frame_len, mic_sr, cfg);
            if g == Gate::Inside && ref_sr != mic_sr {
                m
            } else if g == Gate::Expired {
                GatedModel {
                    aligned: None,
                    detector: DetectorModel {
                        window: fed(m.detector, cap, agg_frac, vote, now, cfg).window,
                        state: rested(now, cfg.min_dwell_ms as int),
                    },
                }
            } else {
                GatedModel {
                    aligned: m.aligned,
                    detector: fed(m.detector, cap, agg_frac, vote, now, cfg),
                }
            }
        },
    }
}

/// The event of that tick.
pub open spec fn gated_event(
    m: GatedModel,
    songs: Seq<SongWindows>,
    cap: int,
    agg_frac: int,
    reference: Seq<i16>,
    mic: Seq<i16>,
    ref_sr: int,
    mic_sr: int,
    frame_len: int,
    now: int,
    cfg: Config,
) -> Option<Event> {
    match m.aligned {
        None => None,
        Some(al) => {
            let g = gate_of(songs[al.song as int].segs@, song_clock(al, now), cfg.guard_ms as int);
            if g == Gate::Inside && ref_sr != mic_sr {
                None
            } else {
                fed_event(
                    m.detector,
                    cap,
                    agg_frac,
                    gated_vote(g, reference, mic, frame_len, mic_sr, cfg),
                    now,
                    cfg,
                )
            }
        },
    }
}

} // verus!
