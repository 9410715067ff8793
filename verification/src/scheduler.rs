//! What happens on a tick: frames are cut from the two rings, estimated,
//! aggregated, and the presence state advanced; and when the next tick is
//! due.

use vstd::prelude::*;
use crate::aggregator::{
    aggregate_of, lemma_empty_window, lemma_full_window, pushed, vote_within, window_cap_of,
    Aggregator, Vote,
};
use crate::config::Config;
use crate::estimator::{estimate, estimate_from_ref, lemma_silent_frames};
use crate::hysteresis::{
    event_of, flips, qualified, qualify, rested, stepped, thresholds_of, Event, PresenceModel,
    PresenceState,
};
use crate::ring::{tail_of, RingBuffer};
use crate::units::{
    lemma_next_pow2, max_int, next_pow2, next_pow2_u64, round_div, MICRO, SOUND_MM_PER_S,
};

verus! {

/// `a / b`, rounded up.
pub open spec fn ceil_div(a: int, b: int) -> int {
    (a + b - 1) / b
}

/// Length of the frames handed to the estimator: a power of two, at least
/// 4096, that holds the largest pipeline delay, the echo from the far end of
/// the band and 1024 samples more.
pub open spec fn analysis_len_of(sr: int, front_max_mm: int) -> int {
    max_int(
        next_pow2(
            ceil_div(200 * sr, 1000) + ceil_div(2 * front_max_mm * sr, SOUND_MM_PER_S as int)
                + 1024,
        ),
        4096,
    )
}

/// Length of the frames handed to the estimator at `sr` Hz.
pub fn analysis_len(sr: u32, front_max_mm: u32) -> (n: usize)
    requires
        analysis_len_of(sr as int, front_max_mm as int) <= usize::MAX,
    ensures
        n == analysis_len_of(sr as int, front_max_mm as int),
{
    let base: u64 = (200 * (sr as u64) + 999) / 1000;
    let d: u128 = front_max_mm as u128;
    let r: u128 = sr as u128;
    assert(2 * d * r <= 2 * 0xFFFF_FFFFu128 * 0xFFFF_FFFFu128) by (nonlinear_arith)
        requires
            0 <= d <= 0xFFFF_FFFF,
            0 <= r <= 0xFFFF_FFFF,
    ;
    let echo: u128 = (2 * d * r + 342_999) / 343_000;
    let need: u64 = base + echo as u64 + 1024;
    proof {
        lemma_next_pow2(need as int);
    }
    let p: u64 = next_pow2_u64(need);
    if p > 4096 {
        p as usize
    } else {
        4096
    }
}

/// The detector as plain values: the aggregator's window and the presence
/// state.
pub struct DetectorModel {
    pub window: Seq<Vote>,
    pub state: PresenceModel,
}

/// The detector after a tick that cast `vote` at `now`: the vote, if it
/// qualifies, enters the window; a full window advances the presence state.
pub open spec fn fed(m: DetectorModel, cap: int, agg_frac: int, vote: Vote, now: int, cfg: Config)
    -> DetectorModel {
    let window = pushed(m.window, cap, qualified(vote, cfg));
    if window.len() < cap {
        DetectorModel { window, state: m.state }
    } else {
        DetectorModel {
            window,
            state: stepped(
                m.state,
                aggregate_of(window, cap, agg_frac).agreement as int,
                now,
                thresholds_of(cfg),
            ),
        }
    }
}

/// The event of that tick: the flip of the presence state, if there is one.
pub open spec fn fed_event(
    m: DetectorModel,
    cap: int,
    agg_frac: int,
    vote: Vote,
    now: int,
    cfg: Config,
) -> Option<Event> {
    let window = pushed(m.window, cap, qualified(vote, cfg));
    let agg = aggregate_of(window, cap, agg_frac);
    if window.len() >= cap && flips(m.state, agg.agreement as int, now, thresholds_of(cfg)) {
        Some(event_of(!m.state.present, agg))
    } else {
        None
    }
}

/// A detector is sound: its window is at least one tick long, fits the
/// machine and holds no more than a window of votes, and the time of the
/// last flip is within a clock's reach of zero.
pub open spec fn detector_sound(m: DetectorModel, cap: int) -> bool {
    &&& 1 <= cap <= usize::MAX
    &&& m.window.len() <= cap
    &&& -(u64::MAX as int) <= m.state.last_flip <= u64::MAX as int
}

/// The newest `n` samples of a ring's contents.
pub open spec fn newest(s: Seq<i16>, n: int) -> Seq<i16> {
    s.subrange(s.len() - n, s.len() as int)
}

/// The vote of a tick on rings holding `reference` and `mic`: none while
/// either holds fewer than `frame_len` samples, else the estimate on the
/// newest `frame_len` samples of each.
pub open spec fn tick_vote(
    reference: Seq<i16>,
    mic: Seq<i16>,
    frame_len: int,
    sr: int,
    cfg: Config,
) -> Vote {
    if reference.len() < frame_len || mic.len() < frame_len {
        None
    } else {
        estimate(newest(reference, frame_len), newest(mic, frame_len), sr, cfg)
    }
}

/// Aggregator and presence state, owned by the scheduler.
pub struct Detector {
    agg: Aggregator,
    state: PresenceState,
}

impl Detector {
    /// The window and the state as plain values.
    pub closed spec fn view(&self) -> DetectorModel {
        DetectorModel { window: self.agg@, state: self.state@ }
    }

    /// Number of ticks in a full window.
    pub closed spec fn spec_cap(&self) -> int {
        self.agg.spec_cap()
    }

    /// Agreement from which a window counts as present, in millionths.
    pub closed spec fn spec_agg_frac(&self) -> int {
        self.agg.spec_agg_frac()
    }

    /// Window and state are sound.
    pub open spec fn well_formed(&self) -> bool {
        detector_sound(self@, self.spec_cap())
    }

    /// An empty window and an absent state whose first flip is not held
    /// back.
    pub fn new(cfg: &Config, now_ms: u64) -> (d: Self)
        requires
            cfg.tick_ms >= 1,
            (1000int / cfg.tick_ms as int) * cfg.window_sec <= usize::MAX,
        ensures
            d.well_formed(),
            d@.window == Seq::<Vote>::empty(),
            d@.state == rested(now_ms as int, cfg.min_dwell_ms as int),
            d.spec_cap() == window_cap_of(cfg.window_sec as int, cfg.tick_ms as int),
            d.spec_agg_frac() == cfg.agg_frac,
    {
        Detector {
            agg: Aggregator::new(cfg.window_sec, cfg.tick_ms, cfg.agg_frac),
            state: PresenceState::new(now_ms, cfg.min_dwell_ms),
        }
    }

    /// The smoothed presence state.
    pub fn is_present(&self) -> (p: bool)
        ensures
            p == self@.state.present,
    {
        self.state.is_present()
    }

    /// Puts the presence state back to absent, its first flip not held back;
    /// the window stays as it is.
    pub fn reset_state(&mut self, now_ms: u64, cfg: &Config)
        requires
            old(self).well_formed(),
        ensures
            final(self).well_formed(),
            final(self).spec_cap() == old(self).spec_cap(),
            final(self).spec_agg_frac() == old(self).spec_agg_frac(),
            final(self)@.window == old(self)@.window,
            final(self)@.state == rested(now_ms as int, cfg.min_dwell_ms as int),
    {
        self.state = PresenceState::new(now_ms, cfg.min_dwell_ms);
    }

    /// One tick with the vote already known.
    pub fn feed(&mut self, vote: Vote, now_ms: u64, cfg: &Config) -> (event: Option<Event>)
        requires
            old(self).well_formed(),
        ensures
            final(self).well_formed(),
            final(self).spec_cap() == old(self).spec_cap(),
            final(self).spec_agg_frac() == old(self).spec_agg_frac(),
            final(self)@ == fed(
                old(self)@,
                old(self).spec_cap(),
                old(self).spec_agg_frac(),
                vote,
                now_ms as int,
                *cfg,
            ),
            event == fed_event(
                old(self)@,
                old(self).spec_cap(),
                old(self).spec_agg_frac(),
                vote,
                now_ms as int,
                *cfg,
            ),
    {
        match self.agg.push(qualify(vote, cfg)) {
            Some(agg) => self.state.advance(&agg, now_ms, cfg),
            None => None,
        }
    }

    /// One tick of the presence pipeline on the two rings. A tick on rings
    /// of different sample rates is skipped: nothing changes.
    pub fn tick(
        &mut self,
        reference: &RingBuffer<i16>,
        mic: &RingBuffer<i16>,
        frame_len: usize,
        now_ms: u64,
        cfg: &Config,
    ) -> (event: Option<Event>)
        requires
            old(self).well_formed(),
        ensures
            final(self).well_formed(),
            final(self).spec_cap() == old(self).spec_cap(),
            final(self).spec_agg_frac() == old(self).spec_agg_frac(),
            reference.spec_sample_rate() != mic.spec_sample_rate() ==> final(self)@ == old(self)@
                && event is None,
            reference.spec_sample_rate() == mic.spec_sample_rate() ==> final(self)@ == fed(
                old(self)@,
                old(self).spec_cap(),
                old(self).spec_agg_frac(),
                tick_vote(reference@, mic@, frame_len as int, mic.spec_sample_rate() as int, *cfg),
                now_ms as int,
                *cfg,
            ) && event == fed_event(
                old(self)@,
                old(self).spec_cap(),
                old(self).spec_agg_frac(),
                tick_vote(reference@, mic@, frame_len as int, mic.spec_sample_rate() as int, *cfg),
                now_ms as int,
                *cfg,
            ),
    {
        if reference.sample_rate() != mic.sample_rate() {
            return None;
        }
        let vote: Vote = match reference.snapshot(frame_len) {
            Some(r) => match mic.snapshot(frame_len) {
                Some(m) => estimate_from_ref(r.as_slice(), m.as_slice(), mic.sample_rate(), cfg),
                None => None,
            },
            None => None,
        };
        self.feed(vote, now_ms, cfg)
    }
}

/// Absolute-deadline pacing of the ticks.
#[derive(Clone, Copy, Debug, PartialEq, Eq, Structural)]
pub struct Pacer {
    /// When the next tick is due, in milliseconds.
    pub next_ms: u64,
}

impl Pacer {
    /// A pacer whose first deadline is `now_ms`.
    pub fn new(now_ms: u64) -> (p: Self)
        ensures
            p.next_ms == now_ms,
    {
        Pacer { next_ms: now_ms }
    }

    /// Moves the deadline one tick on.
    pub fn schedule(&mut self, tick_ms: u64)
        requires
            old(self).next_ms + tick_ms <= u64::MAX,
        ensures
            final(self).next_ms == old(self).next_ms + tick_ms,
    {
        self.next_ms = self.next_ms + tick_ms;
    }

    /// How long to sleep from `now_ms` until the deadline; a deadline that
    /// has passed is moved to `now_ms`, so that late ticks are not made up
    /// for in a burst.
    pub fn settle(&mut self, now_ms: u64) -> (sleep_ms: u64)
        ensures
            old(self).next_ms > now_ms ==> sleep_ms == old(self).next_ms - now_ms,
            old(self).next_ms > now_ms ==> final(self).next_ms == old(self).next_ms,
            old(self).next_ms <= now_ms ==> sleep_ms == 0 && final(self).next_ms == now_ms,
    {
        if self.next_ms > now_ms {
            self.next_ms - now_ms
        } else {
            self.next_ms = now_ms;
            0
        }
    }
}

/// The detector after the ticks `ticks`, each a `(vote, now)` pair, were fed
/// to it in turn.
pub open spec fn run_detector(
    m: DetectorModel,
    cap: int,
    agg_frac: int,
    ticks: Seq<(Vote, int)>,
    cfg: Config,
) -> DetectorModel
    decreases ticks.len(),
{
    if ticks.len() == 0 {
        m
    } else {
        fed(
            run_detector(m, cap, agg_frac, ticks.drop_last(), cfg),
            cap,
            agg_frac,
            ticks.last().0,
            ticks.last().1,
            cfg,
        )
    }
}

/// The event of tick `i` of a run.
pub open spec fn event_at(
    m: DetectorModel,
    cap: int,
    agg_frac: int,
    ticks: Seq<(Vote, int)>,
    i: int,
    cfg: Config,
) -> Option<Event> {
    fed_event(
        run_detector(m, cap, agg_frac, ticks.take(i), cfg),
        cap,
        agg_frac,
        ticks[i].0,
        ticks[i].1,
        cfg,
    )
}

/// The votes of a run as they enter the window.
pub open spec fn votes_of(ticks: Seq<(Vote, int)>, cfg: Config) -> Seq<Vote> {
    Seq::new(ticks.len(), |k: int| qualified(ticks[k].0, cfg))
}

/// A detector that has not seen a tick yet.
pub open spec fn cold(start: int, cfg: Config) -> DetectorModel {
    DetectorModel { window: Seq::empty(), state: rested(start, cfg.min_dwell_ms as int) }
}

/// After a run the window holds the newest votes: those it held before and
/// those of the run, cut to a window's length.
pub proof fn lemma_run_window(
    m: DetectorModel,
    cap: int,
    agg_frac: int,
    ticks: Seq<(Vote, int)>,
    cfg: Config,
)
    requires
        cap >= 1,
        m.window.len() <= cap,
    ensures
        run_detector(m, cap, agg_frac, ticks, cfg).window == tail_of(
            m.window + votes_of(ticks, cfg),
            cap,
        ),
    decreases ticks.len(),
{
    if ticks.len() == 0 {
        assert(m.window + votes_of(ticks, cfg) =~= m.window);
    } else {
        let init = ticks.drop_last();
        lemma_run_window(m, cap, agg_frac, init, cfg);
        let before = m.window + votes_of(init, cfg);
        let vote = qualified(ticks.last().0, cfg);
        assert(before.push(vote) =~= m.window + votes_of(ticks, cfg));
        assert(tail_of(tail_of(before, cap).push(vote), cap) =~= tail_of(before.push(vote), cap));
    }
}

/// Every tick of the run casts a vote that does not qualify, or none.
pub open spec fn no_vote_qualifies(ticks: Seq<(Vote, int)>, cfg: Config) -> bool {
    forall|k: int| 0 <= k < ticks.len() ==> qualified((#[trigger] ticks[k]).0, cfg) is None
}

proof fn lemma_quiet_run(
    m: DetectorModel,
    cap: int,
    agg_frac: int,
    ticks: Seq<(Vote, int)>,
    cfg: Config,
)
    requires
        cap >= 1,
        cfg.enter_frac > 0,
        m.window.len() <= cap,
        forall|k: int| 0 <= k < m.window.len() ==> m.window[k] is None,
        !m.state.present,
        no_vote_qualifies(ticks, cfg),
    ensures
        run_detector(m, cap, agg_frac, ticks, cfg).state == m.state,
        forall|k: int|
            0 <= k < run_detector(m, cap, agg_frac, ticks, cfg).window.len() ==> run_detector(
                m,
                cap,
                agg_frac,
                ticks,
                cfg,
            ).window[k] is None,
        run_detector(m, cap, agg_frac, ticks, cfg).window.len() <= cap,
    decreases ticks.len(),
{
    if ticks.len() > 0 {
        let init = ticks.drop_last();
        assert(no_vote_qualifies(init, cfg)) by {
            assert forall|k: int| 0 <= k < init.len() implies qualified(
                (#[trigger] init[k]).0,
                cfg,
            ) is None by {
                assert(init[k] == ticks[k]);
            }
        }
        lemma_quiet_run(m, cap, agg_frac, init, cfg);
        let before = run_detector(m, cap, agg_frac, init, cfg);
        assert(qualified(ticks[ticks.len() - 1].0, cfg) is None);
        let window = pushed(before.window, cap, None);
        assert forall|k: int| 0 <= k < window.len() implies window[k] is None by {
            let grown = before.window.push(None);
            if grown.len() <= cap {
                assert(window[k] == grown[k]);
            } else {
                assert(window[k] == grown[grown.len() - cap + k]);
            }
        }
        lemma_empty_window(window, cap, agg_frac);
    }
}

/// Cold start in silence: while no vote qualifies, a detector that starts
/// empty and absent stays absent and reports nothing, however long the run.
pub proof fn lemma_silence_stays_absent(
    cap: int,
    agg_frac: int,
    start: int,
    ticks: Seq<(Vote, int)>,
    i: int,
    cfg: Config,
)
    requires
        cap >= 1,
        cfg.enter_frac > 0,
        no_vote_qualifies(ticks, cfg),
        0 <= i < ticks.len(),
    ensures
        event_at(cold(start, cfg), cap, agg_frac, ticks, i, cfg) is None,
        !run_detector(cold(start, cfg), cap, agg_frac, ticks.take(i + 1), cfg).state.present,
{
    let m = cold(start, cfg);
    let upto = ticks.take(i + 1);
    assert(no_vote_qualifies(upto, cfg)) by {
        assert forall|k: int| 0 <= k < upto.len() implies qualified((#[trigger] upto[k]).0, cfg)
            is None by {
            assert(upto[k] == ticks[k]);
        }
    }
    lemma_quiet_run(m, cap, agg_frac, upto, cfg);
    assert(upto.drop_last() =~= ticks.take(i));
    assert(upto.last() == ticks[i]);
    let before = run_detector(m, cap, agg_frac, ticks.take(i), cfg);
    let after = run_detector(m, cap, agg_frac, upto, cfg);
    assert(after == fed(before, cap, agg_frac, ticks[i].0, ticks[i].1, cfg));
    assert(no_vote_qualifies(ticks.take(i), cfg)) by {
        assert forall|k: int| 0 <= k < ticks.take(i).len() implies qualified(
            (#[trigger] ticks.take(i)[k]).0,
            cfg,
        ) is None by {
            assert(ticks.take(i)[k] == ticks[k]);
        }
    }
    lemma_quiet_run(m, cap, agg_frac, ticks.take(i), cfg);
    assert(qualified(ticks[i].0, cfg) is None);
    lemma_empty_window(after.window, cap, agg_frac);
}

/// Frames of silence cast no vote where both energy gates are above zero.
pub proof fn lemma_silence_casts_no_vote(
    reference: Seq<i16>,
    mic: Seq<i16>,
    frame_len: nat,
    sr: int,
    cfg: Config,
)
    requires
        cfg.min_rms > 0,
        cfg.min_ref_rms > 0,
        forall|k: int| 0 <= k < reference.len() ==> reference[k] == 0,
        forall|k: int| 0 <= k < mic.len() ==> mic[k] == 0,
    ensures
        tick_vote(reference, mic, frame_len as int, sr, cfg) is None,
{
    if frame_len <= reference.len() && frame_len <= mic.len() {
        let r = newest(reference, frame_len as int);
        let m = newest(mic, frame_len as int);
        assert forall|k: int| 0 <= k < r.len() implies r[k] == 0 by {
            assert(r[k] == reference[reference.len() - frame_len + k]);
        }
        assert forall|k: int| 0 <= k < m.len() implies m[k] == 0 by {
            assert(m[k] == mic[mic.len() - frame_len + k]);
        }
        lemma_silent_frames(r, m, sr, cfg);
    }
}

/// The first full window of qualifying votes: a detector that starts empty
/// and absent stays silent for `cap - 1` ticks and on the next reports
/// presence, with full agreement and a mean distance between the nearest
/// and the farthest vote.
pub proof fn lemma_echo_flips_to_present(
    cap: int,
    agg_frac: int,
    start: int,
    ticks: Seq<(Vote, int)>,
    lo: int,
    hi: int,
    cfg: Config,
)
    requires
        cap >= 1,
        ticks.len() == cap,
        0 <= lo <= hi <= u32::MAX,
        cfg.enter_frac <= MICRO,
        forall|k: int|
            0 <= k < cap ==> vote_within((#[trigger] ticks[k]).0, lo, hi) && qualified(
                ticks[k].0,
                cfg,
            ) is Some,
        ticks[cap - 1].1 >= start,
    ensures
        forall|i: int|
            0 <= i < cap - 1 ==> #[trigger] event_at(cold(start, cfg), cap, agg_frac, ticks, i, cfg)
                is None,
        event_at(cold(start, cfg), cap, agg_frac, ticks, cap - 1, cfg) matches Some(e) && e.present
            && e.agreement_pct == 100 && (e.mean_distance_mm matches Some(d) && lo <= d <= hi),
        run_detector(cold(start, cfg), cap, agg_frac, ticks, cfg).state.present,
{
    let m = cold(start, cfg);
    let votes = votes_of(ticks, cfg);
    assert forall|k: int| 0 <= k < cap implies votes[k] == ticks[k].0 by {
        assert(qualified(ticks[k].0, cfg) is Some);
    }
    assert forall|i: int| 0 <= i < cap implies (#[trigger] run_detector(
        m,
        cap,
        agg_frac,
        ticks.take(i),
        cfg,
    )).state == m.state && run_detector(m, cap, agg_frac, ticks.take(i), cfg).window.len()
        == i by {
        lemma_short_run(m, cap, agg_frac, ticks.take(i), cfg);
    }
    assert forall|i: int| 0 <= i < cap - 1 implies #[trigger] event_at(
        m,
        cap,
        agg_frac,
        ticks,
        i,
        cfg,
    ) is None by {
        let before = run_detector(m, cap, agg_frac, ticks.take(i), cfg);
        assert(before.window.len() == i);
        assert(pushed(before.window, cap, qualified(ticks[i].0, cfg)).len() == i + 1);
    }
    let before = run_detector(m, cap, agg_frac, ticks.take(cap - 1), cfg);
    assert(ticks.take(cap) =~= ticks);
    assert(ticks.drop_last() =~= ticks.take(cap - 1));
    lemma_run_window(m, cap, agg_frac, ticks, cfg);
    let window = run_detector(m, cap, agg_frac, ticks, cfg).window;
    assert(m.window + votes =~= votes);
    assert(window == votes);
    assert(window == pushed(before.window, cap, qualified(ticks[cap - 1].0, cfg)));
    assert forall|k: int| 0 <= k < window.len() implies vote_within(
        #[trigger] window[k],
        lo,
        hi,
    ) by {
        assert(window[k] == ticks[k].0);
        assert(vote_within(ticks[k].0, lo, hi));
    }
    lemma_full_window(window, lo, hi, agg_frac);
    assert(round_div(1_000_000, 10_000) == 100) by {
        assert(2_010_000int / 20_000int == 100);
    }
}

proof fn lemma_short_run(
    m: DetectorModel,
    cap: int,
    agg_frac: int,
    ticks: Seq<(Vote, int)>,
    cfg: Config,
)
    requires
        cap >= 1,
        m.window.len() == 0,
        ticks.len() < cap,
    ensures
        run_detector(m, cap, agg_frac, ticks, cfg).state == m.state,
        run_detector(m, cap, agg_frac, ticks, cfg).window.len() == ticks.len(),
    decreases ticks.len(),
{
    if ticks.len() > 0 {
        lemma_short_run(m, cap, agg_frac, ticks.drop_last(), cfg);
    }
}

/// The echo is lost: once a full window holds no vote any more, which is
/// the case after a window's length of ticks without a qualifying vote, a
/// present state flips to absent on the first tick on which its dwell has
/// passed, and the event says so.
pub proof fn lemma_lost_echo_flips_to_absent(
    m: DetectorModel,
    cap: int,
    agg_frac: int,
    ticks: Seq<(Vote, int)>,
    i: int,
    cfg: Config,
)
    requires
        cap >= 1,
        m.window.len() <= cap,
        cfg.exit_frac > 0,
        no_vote_qualifies(ticks, cfg),
        cap - 1 <= i < ticks.len(),
        run_detector(m, cap, agg_frac, ticks.take(i), cfg).state.present,
        ticks[i].1 - run_detector(m, cap, agg_frac, ticks.take(i), cfg).state.last_flip
            >= cfg.min_dwell_ms,
    ensures
        event_at(m, cap, agg_frac, ticks, i, cfg) matches Some(e) && !e.present
            && e.agreement_pct == 0 && e.mean_distance_mm is None,
        !run_detector(m, cap, agg_frac, ticks.take(i + 1), cfg).state.present,
{
    let upto = ticks.take(i + 1);
    assert(upto.drop_last() =~= ticks.take(i));
    assert(upto.last() == ticks[i]);
    lemma_run_window(m, cap, agg_frac, upto, cfg);
    let votes = votes_of(upto, cfg);
    let all = m.window + votes;
    let window = tail_of(all, cap);
    assert forall|k: int| 0 <= k < window.len() implies window[k] is None by {
        // The window is the newest `cap` of at least `cap` votes of the run.
        assert(all.len() >= m.window.len() + cap);
        let at = all.len() - cap + k;
        assert(window[k] == all[at]);
        assert(all[at] == votes[at - m.window.len()]);
        assert(qualified(upto[at - m.window.len()].0, cfg) is None) by {
            assert(upto[at - m.window.len()] == ticks[at - m.window.len()]);
        }
    }
    let before = run_detector(m, cap, agg_frac, ticks.take(i), cfg);
    assert(window == pushed(before.window, cap, qualified(ticks[i].0, cfg)));
    assert(window.len() == cap);
    lemma_empty_window(window, cap, agg_frac);
    assert(round_div(0, 10_000) == 0) by {
        assert(10_000int / 20_000int == 0);
    }
}

} // verus!
