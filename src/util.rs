//! Timing helpers: a rolling average over the last ten samples, and a
//! checkpoint timer over a tick source.
use vstd::prelude::*;

verus! {

/// Number of samples a rolling average keeps.
pub const WINDOW: usize = 10;

/// Sum of a sequence of samples.
pub open spec fn seq_sum(s: Seq<u64>) -> int
    decreases s.len(),
{
    if s.len() == 0 {
        0
    } else {
        seq_sum(s.drop_last()) + s.last()
    }
}

proof fn lemma_seq_sum_bounds(s: Seq<u64>)
    ensures
        0 <= seq_sum(s) <= s.len() * u64::MAX,
    decreases s.len(),
{
    if s.len() > 0 {
        lemma_seq_sum_bounds(s.drop_last());
    }
}

/// Replacing one sample changes the sum by the difference.
proof fn lemma_seq_sum_update(s: Seq<u64>, i: int, v: u64)
    requires
        0 <= i < s.len(),
    ensures
        seq_sum(s.update(i, v)) == seq_sum(s) - s[i] + v,
    decreases s.len(),
{
    if i == s.len() - 1 {
        assert(s.update(i, v).drop_last() =~= s.drop_last());
    } else {
        lemma_seq_sum_update(s.drop_last(), i, v);
        assert(s.update(i, v).drop_last() =~= s.drop_last().update(i, v));
    }
}

/// The mean of the last ten samples, zeros standing in for samples not yet
/// taken. The running sum is kept as a `u128`, which ten `u64` samples cannot
/// overflow, so `add` takes any sample; a `u64` sum would overflow once the
/// samples add up past `u64::MAX`.
pub struct RollingAverage {
    window: Vec<u64>,
    index: usize,
    sum: u128,
}

impl RollingAverage {
    /// The ten sample slots.
    pub closed spec fn samples(&self) -> Seq<u64> {
        self.window@
    }

    /// The slot the next sample replaces.
    pub closed spec fn next_slot(&self) -> int {
        self.index as int
    }

    /// Ten slots, a slot index among them, and a sum that matches the slots.
    pub closed spec fn wf(&self) -> bool {
        &&& self.window@.len() == WINDOW
        &&& self.index < WINDOW
        &&& self.sum == seq_sum(self.window@)
    }

    /// An average over ten zero samples.
    pub fn new() -> (r: Self)
        ensures
            r.wf(),
            r.samples() == Seq::new(WINDOW as nat, |_i: int| 0u64),
            r.next_slot() == 0,
    {
        let mut window: Vec<u64> = Vec::new();
        let mut i: usize = 0;
        while i < WINDOW
            invariant
                i <= WINDOW,
                window@ == Seq::new(i as nat, |_i: int| 0u64),
                seq_sum(window@) == 0,
            decreases WINDOW - i,
        {
            let ghost before = window@;
            window.push(0);
            i = i + 1;
            assert(window@.drop_last() =~= before);
            assert(window@ =~= Seq::new(i as nat, |_i: int| 0u64));
        }
        RollingAverage { window, index: 0, sum: 0 }
    }

    /// Puts `val` in place of the oldest sample.
    pub fn add(&mut self, val: u64)
        requires
            old(self).wf(),
        ensures
            final(self).wf(),
            final(self).samples() == old(self).samples().update(old(self).next_slot(), val),
            final(self).next_slot() == (old(self).next_slot() + 1) % (WINDOW as int),
    {
        proof {
            lemma_seq_sum_bounds(self.window@);
            lemma_seq_sum_update(self.window@, self.index as int, val);
            lemma_seq_sum_bounds(self.window@.update(self.index as int, val));
            lemma_seq_sum_update(self.window@, self.index as int, 0);
            lemma_seq_sum_bounds(self.window@.update(self.index as int, 0));
        }
        self.sum = self.sum - self.window[self.index] as u128 + val as u128;
        self.window[self.index] = val;
        self.index = (self.index + 1) % WINDOW;
    }

    /// The mean of the ten samples, rounded down.
    pub fn average(&self) -> (r: u64)
        requires
            self.wf(),
        ensures
            r == seq_sum(self.samples()) / (WINDOW as int),
    {
        proof {
            lemma_seq_sum_bounds(self.window@);
        }
        (self.sum / 10) as u64
    }
}

/// A source of monotonic ticks that can also pause the caller.
pub trait FrugTimer {
    /// The current tick count.
    fn ticks(&self) -> u64;

    /// Pauses the caller for `ms` milliseconds.
    fn delay_ms(&mut self, ms: u64);
}

/// Ticks from `from` to `to` on a counter that wraps at 2^64.
pub open spec fn ticks_between(from: u64, to: u64) -> u64 {
    if from <= to {
        (to - from) as u64
    } else {
        (to + 0x1_0000_0000_0000_0000 - from) as u64
    }
}

/// Measures the ticks between checkpoints.
pub struct Bencher<'a, T: FrugTimer> {
    timer: &'a T,
    last: u64,
}

impl<'a, T: FrugTimer> Bencher<'a, T> {
    /// The tick count at the last checkpoint.
    pub closed spec fn last(&self) -> u64 {
        self.last
    }

    /// A bencher whose first checkpoint is now.
    pub fn new(timer: &'a T) -> (r: Self) {
        let last = timer.ticks();
        Bencher { timer, last }
    }

    /// Makes now the last checkpoint.
    pub fn start(&mut self) {
        self.last = self.timer.ticks();
    }

    /// Makes now a checkpoint and returns the ticks since the last one. The
    /// clock is read once: that reading is both the end of the interval and
    /// the new checkpoint. A clock that reads less than the last checkpoint
    /// gives the difference wrapped modulo 2^64 rather than an underflow.
    pub fn cp(&mut self) -> (r: u64)
        ensures
            r == ticks_between(old(self).last(), final(self).last()),
    {
        let end = self.timer.ticks();
        let time = end.wrapping_sub(self.last);
        self.last = end;
        time
    }
}

} // verus!
