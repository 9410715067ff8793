//! Bounded sample buffer that keeps the most recent ten seconds of one source.

use vstd::prelude::*;

verus! {

/// Seconds of audio a ring keeps.
pub const RING_SECONDS: usize = 10;

/// The last `cap` elements of `s` (all of `s` when it is shorter).
pub open spec fn tail_of<T>(s: Seq<T>, cap: int) -> Seq<T> {
    if s.len() <= cap {
        s
    } else {
        s.subrange(s.len() - cap, s.len() as int)
    }
}

/// Mono samples of one source at a fixed sample rate, oldest first.
pub struct RingBuffer<T> {
    buf: Vec<T>,
    sample_rate: u32,
}

impl<T: Copy> RingBuffer<T> {
    /// The samples held, oldest first.
    pub closed spec fn view(&self) -> Seq<T> {
        self.buf@
    }

    /// Sample rate of the source, in Hz.
    pub closed spec fn spec_sample_rate(&self) -> u32 {
        self.sample_rate
    }

    /// Largest number of samples the ring holds.
    pub open spec fn spec_capacity(&self) -> int {
        self.spec_sample_rate() as int * RING_SECONDS as int
    }

    /// The capacity fits the machine and is never exceeded.
    pub open spec fn well_formed(&self) -> bool {
        &&& self.spec_capacity() <= usize::MAX
        &&& self@.len() <= self.spec_capacity()
    }

    /// An empty ring for a source running at `sample_rate` Hz.
    pub fn new(sample_rate: u32) -> (ring: Self)
        requires
            sample_rate as int * RING_SECONDS as int <= usize::MAX,
        ensures
            ring.well_formed(),
            ring@ == Seq::<T>::empty(),
            ring.spec_sample_rate() == sample_rate,
    {
        RingBuffer { buf: Vec::new(), sample_rate }
    }

    /// Sample rate of the source, in Hz.
    #[verifier::when_used_as_spec(spec_sample_rate)]
    pub fn sample_rate(&self) -> (sr: u32)
        ensures
            sr == self.spec_sample_rate(),
    {
        self.sample_rate
    }

    /// Largest number of samples the ring holds.
    pub fn capacity(&self) -> (cap: usize)
        requires
            self.well_formed(),
        ensures
            cap == self.spec_capacity(),
    {
        (self.sample_rate as usize) * RING_SECONDS
    }

    /// Number of samples held.
    pub fn len(&self) -> (n: usize)
        ensures
            n == self@.len(),
    {
        self.buf.len()
    }

    /// Appends `block` and drops the oldest samples beyond the capacity.
    pub fn append(&mut self, block: &[T])
        requires
            old(self).well_formed(),
        ensures
            final(self).well_formed(),
            final(self).spec_sample_rate() == old(self).spec_sample_rate(),
            final(self)@ == tail_of(old(self)@ + block@, old(self).spec_capacity()),
    {
        let cap = self.capacity();
        let old_len = self.buf.len();
        let add = block.len();
        // How many of the held samples survive, and from where the block is copied.
        let keep: usize = if add >= cap {
            0
        } else if old_len <= cap - add {
            old_len
        } else {
            cap - add
        };
        let skip: usize = if add >= cap { add - cap } else { 0 };
        let ghost whole = self.buf@ + block@;
        let ghost before = self.buf@;
        let mut next: Vec<T> = Vec::new();
        let mut i: usize = old_len - keep;
        while i < old_len
            invariant
                keep <= old_len,
                old_len - keep <= i <= old_len,
                old_len == self.buf@.len(),
                self.buf@ == before,
                next@ == before.subrange(old_len - keep, i as int),
            decreases old_len - i,
        {
            next.push(self.buf[i]);
            i += 1;
        }
        let mut j: usize = skip;
        while j < add
            invariant
                skip <= j <= add,
                add == block@.len(),
                old_len == before.len(),
                keep <= old_len,
                next@ == before.subrange(old_len - keep, old_len as int) + block@.subrange(
                    skip as int,
                    j as int,
                ),
            decreases add - j,
        {
            next.push(block[j]);
            j += 1;
        }
        assert(next@ =~= tail_of(whole, cap as int));
        self.buf = next;
    }

    /// The newest `n` samples, oldest first, or `None` while fewer are held.
    pub fn snapshot(&self, n: usize) -> (frame: Option<Vec<T>>)
        ensures
            n > self@.len() ==> frame is None,
            n <= self@.len() ==> frame is Some && frame->0@ == self@.subrange(
                self@.len() - n,
                self@.len() as int,
            ),
    {
        let len = self.buf.len();
        if n > len {
            return None;
        }
        let mut out: Vec<T> = Vec::new();
        let mut i: usize = len - n;
        while i < len
            invariant
                n <= len,
                len - n <= i <= len,
                len == self.buf@.len(),
                out@ == self.buf@.subrange(len - n, i as int),
            decreases len - i,
        {
            out.push(self.buf[i]);
            i += 1;
        }
        Some(out)
    }
}

/// A ring never holds more than its capacity, whatever is appended to it.
pub proof fn lemma_append_bounded<T>(held: Seq<T>, block: Seq<T>, cap: int)
    requires
        cap >= 0,
    ensures
        tail_of(held + block, cap).len() <= cap,
        tail_of(held + block, cap).len() == crate::units::min_int(
            (held.len() + block.len()) as int,
            cap,
        ),
{
}

} // verus!
