//! Two-threshold presence state machine with a minimum dwell between flips.

use vstd::prelude::*;
use crate::aggregator::{Vote, WindowAggregate};
use crate::config::Config;
use crate::units::round_div;

verus! {

/// The state machine as a plain value: the smoothed state and the time of
/// its last flip, in milliseconds.
pub struct PresenceModel {
    pub present: bool,
    pub last_flip: int,
}

/// The two thresholds, in millionths, and the dwell, in milliseconds.
pub struct Thresholds {
    pub enter_frac: int,
    pub exit_frac: int,
    pub min_dwell_ms: int,
}

/// The thresholds that a configuration holds.
pub open spec fn thresholds_of(cfg: Config) -> Thresholds {
    Thresholds {
        enter_frac: cfg.enter_frac as int,
        exit_frac: cfg.exit_frac as int,
        min_dwell_ms: cfg.min_dwell_ms as int,
    }
}

/// The state to start from at `now`: absent, with the last flip set the
/// dwell before `now`, so that the first flip is not held back.
pub open spec fn rested(now: int, min_dwell_ms: int) -> PresenceModel {
    PresenceModel { present: false, last_flip: now - min_dwell_ms }
}

/// The state that the agreement asks for: an absent state enters at
/// `enter_frac`, a present one stays down to `exit_frac`.
pub open spec fn wanted(present: bool, agreement: int, t: Thresholds) -> bool {
    if present {
        agreement >= t.exit_frac
    } else {
        agreement >= t.enter_frac
    }
}

/// Whether an aggregate seen at `now` flips the state.
pub open spec fn flips(st: PresenceModel, agreement: int, now: int, t: Thresholds) -> bool {
    wanted(st.present, agreement, t) != st.present && now - st.last_flip >= t.min_dwell_ms
}

/// The state after an aggregate seen at `now`.
pub open spec fn stepped(st: PresenceModel, agreement: int, now: int, t: Thresholds)
    -> PresenceModel {
    if flips(st, agreement, now, t) {
        PresenceModel { present: !st.present, last_flip: now }
    } else {
        st
    }
}

/// The state after the aggregates `ticks`, each an `(agreement, now)` pair,
/// were seen in turn.
pub open spec fn run(st: PresenceModel, ticks: Seq<(int, int)>, t: Thresholds) -> PresenceModel
    decreases ticks.len(),
{
    if ticks.len() == 0 {
        st
    } else {
        let before = run(st, ticks.drop_last(), t);
        stepped(before, ticks.last().0, ticks.last().1, t)
    }
}

/// Whether tick `i` of `ticks` flips the state.
pub open spec fn flips_at(st: PresenceModel, ticks: Seq<(int, int)>, i: int, t: Thresholds)
    -> bool {
    flips(run(st, ticks.take(i), t), ticks[i].0, ticks[i].1, t)
}

proof fn lemma_last_flip_after(
    st: PresenceModel,
    ticks: Seq<(int, int)>,
    i: int,
    k: int,
    t: Thresholds,
)
    requires
        t.min_dwell_ms >= 0,
        0 <= i < k <= ticks.len(),
        flips_at(st, ticks, i, t),
    ensures
        run(st, ticks.take(k), t).last_flip >= ticks[i].1,
    decreases k,
{
    let upto = ticks.take(k);
    assert(upto.drop_last() =~= ticks.take(k - 1));
    assert(upto.last() == ticks[k - 1]);
    if k - 1 > i {
        lemma_last_flip_after(st, ticks, i, k - 1, t);
    }
}

/// Between two flips at least the dwell elapses: whatever aggregates arrive
/// at whatever times, two ticks that both flip the state lie `min_dwell_ms`
/// or more apart.
pub proof fn lemma_flips_are_dwell_apart(
    st: PresenceModel,
    ticks: Seq<(int, int)>,
    i: int,
    j: int,
    t: Thresholds,
)
    requires
        t.min_dwell_ms >= 0,
        0 <= i < j < ticks.len(),
        flips_at(st, ticks, i, t),
        flips_at(st, ticks, j, t),
    ensures
        ticks[j].1 - ticks[i].1 >= t.min_dwell_ms,
{
    lemma_last_flip_after(st, ticks, i, j, t);
}

/// A state change, as handed to the event sink, which stamps it with the
/// local time.
#[derive(Clone, Copy, Debug, PartialEq, Eq, Structural)]
pub struct Event {
    pub present: bool,
    /// Mean distance in millimetres; `None` stands for an infinite distance.
    pub mean_distance_mm: Option<u32>,
    /// Mean strength, in millionths.
    pub mean_strength: u32,
    /// Agreement in percent, rounded to the nearest whole.
    pub agreement_pct: u32,
}

/// The event that reports a flip to `present` on the aggregate `agg`.
pub open spec fn event_of(present: bool, agg: WindowAggregate) -> Event {
    Event {
        present,
        mean_distance_mm: agg.mean_distance_mm,
        mean_strength: agg.mean_strength,
        agreement_pct: round_div(agg.agreement as int, 10_000) as u32,
    }
}

/// The event of an aggregate seen at `now`: the flip, if there is one.
pub open spec fn flip_event(st: PresenceModel, agg: WindowAggregate, now: int, t: Thresholds)
    -> Option<Event> {
    if flips(st, agg.agreement as int, now, t) {
        Some(event_of(!st.present, agg))
    } else {
        None
    }
}

/// A vote counts as an instant detection when it is no farther than
/// `dist_max_mm` and at least `strength_thr` strong; others count as none.
pub open spec fn qualified(vote: Vote, cfg: Config) -> Vote {
    match vote {
        Some((d, s)) => if d <= cfg.dist_max_mm && s >= cfg.strength_thr {
            vote
        } else {
            None
        },
        None => None,
    }
}

/// Lets a vote through if it counts as an instant detection.
pub fn qualify(vote: Vote, cfg: &Config) -> (out: Vote)
    ensures
        out == qualified(vote, *cfg),
{
    match vote {
        Some((d, s)) => if d <= cfg.dist_max_mm && s >= cfg.strength_thr {
            vote
        } else {
            None
        },
        None => None,
    }
}

/// Smoothed present/absent state.
#[derive(Clone, Copy, Debug)]
pub struct PresenceState {
    present: bool,
    last_flip_ms: i128,
}

impl PresenceState {
    /// The state as plain values.
    pub closed spec fn view(&self) -> PresenceModel {
        PresenceModel { present: self.present, last_flip: self.last_flip_ms as int }
    }

    /// The time of the last flip is within a clock's reach of zero.
    pub open spec fn well_formed(&self) -> bool {
        -(u64::MAX as int) <= self@.last_flip <= u64::MAX as int
    }

    /// Absent, with the last flip set `min_dwell_ms` before `now_ms`, so that
    /// the first flip is not held back.
    pub fn new(now_ms: u64, min_dwell_ms: u64) -> (st: Self)
        ensures
            st.well_formed(),
            st@ == rested(now_ms as int, min_dwell_ms as int),
    {
        PresenceState { present: false, last_flip_ms: now_ms as i128 - min_dwell_ms as i128 }
    }

    /// Whether the state is present.
    pub fn is_present(&self) -> (p: bool)
        ensures
            p == self@.present,
    {
        self.present
    }

    /// Time of the last flip, in milliseconds.
    pub fn last_flip_ms(&self) -> (t: i128)
        ensures
            t == self@.last_flip,
    {
        self.last_flip_ms
    }

    /// Takes one aggregate seen at `now_ms`; returns the event to emit when
    /// the state flips.
    pub fn advance(&mut self, agg: &WindowAggregate, now_ms: u64, cfg: &Config) -> (event: Option<
        Event,
    >)
        requires
            old(self).well_formed(),
        ensures
            final(self).well_formed(),
            final(self)@ == stepped(
                old(self)@,
                agg.agreement as int,
                now_ms as int,
                thresholds_of(*cfg),
            ),
            event == flip_event(old(self)@, *agg, now_ms as int, thresholds_of(*cfg)),
            event is Some ==> now_ms - old(self)@.last_flip >= cfg.min_dwell_ms,
            event is Some ==> final(self)@.last_flip == now_ms,
            event is None ==> final(self)@ == old(self)@,
    {
        let want: bool = if self.present {
            agg.agreement >= cfg.exit_frac
        } else {
            agg.agreement >= cfg.enter_frac
        };
        if want != self.present && now_ms as i128 - self.last_flip_ms >= cfg.min_dwell_ms as i128 {
            self.present = want;
            self.last_flip_ms = now_ms as i128;
            Some(
                Event {
                    present: want,
                    mean_distance_mm: agg.mean_distance_mm,
                    mean_strength: agg.mean_strength,
                    agreement_pct: ((2 * (agg.agreement as u64) + 10_000) / 20_000) as u32,
                },
            )
        } else {
            None
        }
    }
}

} // verus!
