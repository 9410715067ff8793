//! Sliding-window aggregator: the running count and means of the votes of
//! the last `window_sec` seconds.

use std::collections::VecDeque;
use vstd::prelude::*;
use crate::ring::tail_of;
use crate::units::{max_int, min_int, MICRO};

verus! {

/// One tick's vote: `(distance_mm, strength)`, or nothing.
pub type Vote = Option<(u32, u32)>;

/// Number of ticks in a window: whole ticks per second times the seconds,
/// and at least one.
pub open spec fn window_cap_of(window_sec: int, tick_ms: int) -> int {
    max_int((1000int / tick_ms) * window_sec, 1)
}

/// Number of ticks in a window of `window_sec` seconds at one tick every
/// `tick_ms` milliseconds.
pub fn window_cap(window_sec: u32, tick_ms: u64) -> (cap: usize)
    requires
        tick_ms >= 1,
        (1000int / tick_ms as int) * window_sec <= usize::MAX,
    ensures
        cap == window_cap_of(window_sec as int, tick_ms as int),
        cap >= 1,
{
    let per_second: u64 = 1000 / tick_ms;
    assert(per_second * window_sec <= 1000 * 0xFFFF_FFFF) by (nonlinear_arith)
        requires
            0 <= per_second <= 1000,
            0 <= window_sec <= 0xFFFF_FFFF,
    ;
    let ticks: u64 = per_second * (window_sec as u64);
    if ticks == 0 {
        1
    } else {
        ticks as usize
    }
}

/// What a full window amounts to.
#[derive(Clone, Copy, Debug, PartialEq, Eq, Structural)]
pub struct WindowAggregate {
    /// The agreement reaches the aggregator's own threshold.
    pub present: bool,
    /// Mean distance of the votes cast, in millimetres; `None` stands for an
    /// infinite distance.
    pub mean_distance_mm: Option<u32>,
    /// Mean strength of the votes cast, in millionths; zero when none was cast.
    pub mean_strength: u32,
    /// Fraction of the window's ticks that cast a vote, in millionths.
    pub agreement: u32,
}

/// How many of the first `n` ticks cast a vote.
pub open spec fn votes_cast(w: Seq<Vote>, n: int) -> int
    decreases n,
{
    if n <= 0 {
        0
    } else {
        votes_cast(w, n - 1) + if w[n - 1] is Some {
            1int
        } else {
            0int
        }
    }
}

/// Sum of the distances voted in the first `n` ticks.
pub open spec fn distance_sum(w: Seq<Vote>, n: int) -> int
    decreases n,
{
    if n <= 0 {
        0
    } else {
        distance_sum(w, n - 1) + match w[n - 1] {
            Some((d, _)) => d as int,
            None => 0,
        }
    }
}

/// Sum of the strengths voted in the first `n` ticks.
pub open spec fn strength_sum(w: Seq<Vote>, n: int) -> int
    decreases n,
{
    if n <= 0 {
        0
    } else {
        strength_sum(w, n - 1) + match w[n - 1] {
            Some((_, s)) => s as int,
            None => 0,
        }
    }
}

/// The aggregate of a full window `w` of `cap` ticks.
pub open spec fn aggregate_of(w: Seq<Vote>, cap: int, agg_frac: int) -> WindowAggregate {
    let cast = votes_cast(w, w.len() as int);
    let agreement = cast * MICRO as int / cap;
    WindowAggregate {
        present: agreement >= agg_frac,
        mean_distance_mm: if cast > 0 {
            Some((distance_sum(w, w.len() as int) / cast) as u32)
        } else {
            None
        },
        mean_strength: if cast > 0 {
            (strength_sum(w, w.len() as int) / cast) as u32
        } else {
            0
        },
        agreement: agreement as u32,
    }
}

/// What a push reports on the window it leaves: nothing until the window
/// is full, then its aggregate.
pub open spec fn reported(w: Seq<Vote>, cap: int, agg_frac: int) -> Option<WindowAggregate> {
    if w.len() < cap {
        None
    } else {
        Some(aggregate_of(w, cap, agg_frac))
    }
}

/// The window after one more vote: the vote is appended and the oldest
/// ticks beyond `cap` are dropped.
pub open spec fn pushed(w: Seq<Vote>, cap: int, vote: Vote) -> Seq<Vote> {
    tail_of(w.push(vote), cap)
}

/// The window after all of `votes` were pushed, one by one, into an empty
/// aggregator.
pub open spec fn window_after(votes: Seq<Vote>, cap: int) -> Seq<Vote>
    decreases votes.len(),
{
    if votes.len() == 0 {
        Seq::empty()
    } else {
        pushed(window_after(votes.drop_last(), cap), cap, votes.last())
    }
}

/// The votes cast are at most the ticks, each sum is at most as much as
/// that many votes can hold, and no vote is cast exactly when every tick
/// is empty.
pub proof fn lemma_sums_bounded(w: Seq<Vote>, n: int)
    requires
        0 <= n <= w.len(),
    ensures
        0 <= votes_cast(w, n) <= n,
        0 <= distance_sum(w, n) <= votes_cast(w, n) * 0xFFFF_FFFF,
        0 <= strength_sum(w, n) <= votes_cast(w, n) * 0xFFFF_FFFF,
        votes_cast(w, n) == 0 <==> forall|i: int| 0 <= i < n ==> w[i] is None,
    decreases n,
{
    if n > 0 {
        lemma_sums_bounded(w, n - 1);
    }
}

/// Votes of the last `cap` ticks.
pub struct Aggregator {
    window_sec: u32,
    cap: usize,
    history: VecDeque<Vote>,
    agg_frac: u32,
}

impl Aggregator {
    /// The votes held, oldest first.
    pub closed spec fn view(&self) -> Seq<Vote> {
        self.history@
    }

    /// Number of ticks in a full window.
    pub closed spec fn spec_cap(&self) -> int {
        self.cap as int
    }

    /// Agreement from which a window counts as present, in millionths.
    pub closed spec fn spec_agg_frac(&self) -> int {
        self.agg_frac as int
    }

    /// Length of the window in seconds, as it was asked for.
    pub closed spec fn spec_window_sec(&self) -> int {
        self.window_sec as int
    }

    /// The window is at least one tick long and never holds more.
    pub open spec fn well_formed(&self) -> bool {
        &&& 1 <= self.spec_cap() <= usize::MAX
        &&& self@.len() <= self.spec_cap()
    }

    /// An empty aggregator for windows of `window_sec` seconds, ticked every
    /// `tick_ms` milliseconds, that calls a window present from `agg_frac`
    /// millionths of agreement.
    pub fn new(window_sec: u32, tick_ms: u64, agg_frac: u32) -> (agg: Self)
        requires
            tick_ms >= 1,
            (1000int / tick_ms as int) * window_sec <= usize::MAX,
        ensures
            agg.well_formed(),
            agg@ == Seq::<Vote>::empty(),
            agg.spec_cap() == window_cap_of(window_sec as int, tick_ms as int),
            agg.spec_agg_frac() == agg_frac,
            agg.spec_window_sec() == window_sec,
    {
        let cap = window_cap(window_sec, tick_ms);
        Aggregator { window_sec, cap, history: VecDeque::new(), agg_frac }
    }

    /// Number of ticks in a full window.
    pub fn cap(&self) -> (cap: usize)
        ensures
            cap == self.spec_cap(),
    {
        self.cap
    }

    /// Number of votes held.
    pub fn len(&self) -> (n: usize)
        ensures
            n == self@.len(),
    {
        self.history.len()
    }

    /// Pushes one tick's vote; once the window is full, returns its
    /// aggregate.
    pub fn push(&mut self, vote: Vote) -> (out: Option<WindowAggregate>)
        requires
            old(self).well_formed(),
        ensures
            final(self).well_formed(),
            final(self).spec_cap() == old(self).spec_cap(),
            final(self).spec_agg_frac() == old(self).spec_agg_frac(),
            final(self).spec_window_sec() == old(self).spec_window_sec(),
            final(self)@ == pushed(old(self)@, old(self).spec_cap(), vote),
            out == reported(final(self)@, final(self).spec_cap(), final(self).spec_agg_frac()),
            out is Some <==> old(self)@.len() + 1 >= old(self).spec_cap(),
            out matches Some(a) ==> a.agreement <= MICRO && (a.mean_distance_mm is None
                <==> forall|i: int| 0 <= i < final(self)@.len() ==> final(self)@[i] is None),
    {
        let ghost before = self.history@;
        self.history.push_back(vote);
        if self.history.len() > self.cap {
            let _ = self.history.pop_front();
        }
        assert(self.history@ =~= pushed(before, self.cap as int, vote));
        let n: usize = self.history.len();
        if n < self.cap {
            return None;
        }
        let mut cast: u128 = 0;
        let mut sum_d: u128 = 0;
        let mut sum_s: u128 = 0;
        let mut i: usize = 0;
        while i < n
            invariant
                i <= n,
                n == self.history@.len(),
                cast == votes_cast(self.history@, i as int),
                sum_d == distance_sum(self.history@, i as int),
                sum_s == strength_sum(self.history@, i as int),
                cast <= i,
                sum_d <= cast * 0xFFFF_FFFF,
                sum_s <= cast * 0xFFFF_FFFF,
            decreases n - i,
        {
            match self.history[i] {
                Some((d, s)) => {
                    cast = cast + 1;
                    sum_d = sum_d + d as u128;
                    sum_s = sum_s + s as u128;
                },
                None => {},
            }
            i += 1;
        }
        proof {
            lemma_sums_bounded(self.history@, n as int);
        }
        let cap: u128 = self.cap as u128;
        let agreement: u128 = cast * 1_000_000 / cap;
        assert(agreement <= 1_000_000) by (nonlinear_arith)
            requires
                agreement as int == (cast as int * 1_000_000) / (cap as int),
                0 <= cast <= cap,
                cap > 0,
        ;
        let present: bool = agreement >= self.agg_frac as u128;
        let (mean_d, mean_s): (Option<u32>, u32) = if cast > 0 {
            let md: u128 = sum_d / cast;
            let ms: u128 = sum_s / cast;
            assert(md <= 0xFFFF_FFFF && ms <= 0xFFFF_FFFF) by (nonlinear_arith)
                requires
                    md as int == (sum_d as int) / (cast as int),
                    ms as int == (sum_s as int) / (cast as int),
                    cast > 0,
                    0 <= sum_d <= cast * 0xFFFF_FFFF,
                    0 <= sum_s <= cast * 0xFFFF_FFFF,
            ;
            (Some(md as u32), ms as u32)
        } else {
            (None, 0)
        };
        Some(
            WindowAggregate {
                present,
                mean_distance_mm: mean_d,
                mean_strength: mean_s,
                agreement: agreement as u32,
            },
        )
    }
}

/// The agreement of a full window is a fraction of one, and its mean
/// distance is infinite exactly when no tick of the window cast a vote.
pub proof fn lemma_aggregate_bounds(w: Seq<Vote>, agg_frac: int)
    requires
        w.len() >= 1,
    ensures
        0 <= aggregate_of(w, w.len() as int, agg_frac).agreement <= MICRO,
        aggregate_of(w, w.len() as int, agg_frac).mean_distance_mm is None <==> forall|i: int|
            0 <= i < w.len() ==> w[i] is None,
{
    let n = w.len() as int;
    lemma_sums_bounded(w, n);
    let cast = votes_cast(w, n);
    assert(0 <= cast * 1_000_000 / n <= 1_000_000) by (nonlinear_arith)
        requires
            0 <= cast <= n,
            n >= 1,
    ;
}

/// A full window without a vote has no agreement, an infinite mean distance
/// and no strength.
pub proof fn lemma_empty_window(w: Seq<Vote>, cap: int, agg_frac: int)
    requires
        cap >= 1,
        forall|i: int| 0 <= i < w.len() ==> w[i] is None,
    ensures
        aggregate_of(w, cap, agg_frac).agreement == 0,
        aggregate_of(w, cap, agg_frac).mean_distance_mm is None,
        aggregate_of(w, cap, agg_frac).mean_strength == 0,
{
    lemma_sums_bounded(w, w.len() as int);
    assert(0int * 1_000_000 / cap == 0) by (nonlinear_arith)
        requires
            cap >= 1,
    ;
}

/// The tick cast a vote for a distance within `lo..=hi`.
pub open spec fn vote_within(v: Vote, lo: int, hi: int) -> bool {
    v matches Some((d, s)) && lo <= d <= hi
}

proof fn lemma_all_cast(w: Seq<Vote>, n: int, lo: int, hi: int)
    requires
        0 <= n <= w.len(),
        forall|i: int| 0 <= i < w.len() ==> vote_within(#[trigger] w[i], lo, hi),
    ensures
        votes_cast(w, n) == n,
        n * lo <= distance_sum(w, n) <= n * hi,
    decreases n,
{
    if n > 0 {
        lemma_all_cast(w, n - 1, lo, hi);
        assert(vote_within(w[n - 1], lo, hi));
        assert((n - 1) * lo + lo == n * lo && (n - 1) * hi + hi == n * hi) by (nonlinear_arith);
    }
}

/// A full window in which every tick cast a vote has full agreement, and
/// its mean distance lies between the nearest and the farthest vote.
pub proof fn lemma_full_window(w: Seq<Vote>, lo: int, hi: int, agg_frac: int)
    requires
        w.len() >= 1,
        0 <= lo <= hi <= u32::MAX,
        forall|i: int| 0 <= i < w.len() ==> vote_within(#[trigger] w[i], lo, hi),
    ensures
        aggregate_of(w, w.len() as int, agg_frac).agreement == MICRO,
        aggregate_of(w, w.len() as int, agg_frac).mean_distance_mm matches Some(m) && lo <= m
            <= hi,
{
    let n = w.len() as int;
    lemma_all_cast(w, n, lo, hi);
    assert(n * 1_000_000 / n == 1_000_000) by (nonlinear_arith)
        requires
            n >= 1,
    ;
    let sum = distance_sum(w, n);
    assert(lo <= sum / n <= hi) by (nonlinear_arith)
        requires
            n * lo <= sum <= n * hi,
            n >= 1,
    ;
}

/// After any number of pushes the aggregator holds the newest `cap` votes.
pub proof fn lemma_window_is_tail(votes: Seq<Vote>, cap: int)
    requires
        cap >= 1,
    ensures
        window_after(votes, cap) == tail_of(votes, cap),
        window_after(votes, cap).len() == min_int(votes.len() as int, cap),
    decreases votes.len(),
{
    if votes.len() > 0 {
        lemma_window_is_tail(votes.drop_last(), cap);
        assert(votes.drop_last().push(votes.last()) =~= votes);
        assert(tail_of(tail_of(votes.drop_last(), cap).push(votes.last()), cap) =~= tail_of(
            votes,
            cap,
        ));
    }
}

/// An aggregator that starts empty stays silent for its first `cap - 1`
/// pushes and reports the window on every push from then on: the push of the
/// last of `votes` leaves a full window exactly when at least `cap` votes
/// were pushed.
pub proof fn lemma_reports_once_full(votes: Seq<Vote>, cap: int)
    requires
        cap >= 1,
        votes.len() >= 1,
    ensures
        window_after(votes, cap).len() >= cap <==> votes.len() >= cap,
        window_after(votes.drop_last(), cap).len() + 1 >= cap <==> votes.len() >= cap,
{
    lemma_window_is_tail(votes, cap);
    lemma_window_is_tail(votes.drop_last(), cap);
}

} // verus!
