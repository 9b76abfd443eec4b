use vstd::prelude::*;

verus! {

/// A one-shot countdown over microseconds. `elapsed` grows with each tick and
/// stops at `duration`; the timer has finished once the two are equal.
#[derive(Clone, Copy, Debug, PartialEq, Eq, Structural)]
pub struct Timer {
    pub duration: u64,
    pub elapsed: u64,
}

/// Sum of a sequence of tick lengths.
pub open spec fn total(ds: Seq<u64>) -> int
    decreases ds.len(),
{
    if ds.len() == 0 {
        0
    } else {
        total(ds.drop_last()) + ds.last()
    }
}

impl Timer {
    pub open spec fn wf(self) -> bool {
        self.elapsed <= self.duration
    }

    pub open spec fn is_finished(self) -> bool {
        self.elapsed == self.duration
    }

    /// The timer after `delta` more microseconds have passed.
    pub open spec fn ticked(self, delta: u64) -> Timer {
        Timer {
            duration: self.duration,
            elapsed: if self.elapsed + delta >= self.duration {
                self.duration
            } else {
                (self.elapsed + delta) as u64
            },
        }
    }

    /// The timer after each tick of `ds` in turn.
    pub open spec fn run(self, ds: Seq<u64>) -> Timer
        decreases ds.len(),
    {
        if ds.len() == 0 {
            self
        } else {
            self.run(ds.drop_last()).ticked(ds.last())
        }
    }

    /// A timer that starts counting from zero.
    pub fn new(duration: u64) -> (t: Timer)
        ensures
            t.duration == duration,
            t.elapsed == 0,
            t.wf(),
    {
        Timer { duration, elapsed: 0 }
    }

    /// A timer that has already run out.
    pub fn new_finished(duration: u64) -> (t: Timer)
        ensures
            t.duration == duration,
            t.elapsed == duration,
            t.wf(),
            t.is_finished(),
    {
        Timer { duration, elapsed: duration }
    }

    pub fn finished(&self) -> (r: bool)
        ensures
            r == self.is_finished(),
    {
        self.elapsed == self.duration
    }

    /// Microseconds left until the timer finishes.
    pub fn remaining(&self) -> (r: u64)
        requires
            self.wf(),
        ensures
            r == self.duration - self.elapsed,
    {
        self.duration - self.elapsed
    }

    /// Advances the timer by `delta` microseconds; returns whether it went
    /// from running to finished on this tick.
    pub fn tick(&mut self, delta: u64) -> (just_finished: bool)
        requires
            old(self).wf(),
        ensures
            *final(self) == old(self).ticked(delta),
            final(self).wf(),
            just_finished == (!old(self).is_finished() && final(self).is_finished()),
    {
        let was_finished = self.elapsed == self.duration;
        if delta >= self.duration - self.elapsed {
            self.elapsed = self.duration;
        } else {
            self.elapsed = self.elapsed + delta;
        }
        !was_finished && self.elapsed == self.duration
    }

    /// Starts the countdown again from zero.
    pub fn reset(&mut self)
        ensures
            final(self).duration == old(self).duration,
            final(self).elapsed == 0,
            final(self).wf(),
    {
        self.elapsed = 0;
    }
}

/// After any sequence of ticks, the elapsed time is the starting time plus
/// the sum of the ticks, capped at the duration.
pub proof fn lemma_run_elapsed(t: Timer, ds: Seq<u64>)
    requires
        t.wf(),
    ensures
        t.run(ds).wf(),
        t.run(ds).duration == t.duration,
        t.run(ds).elapsed == if t.elapsed + total(ds) >= t.duration {
            t.duration as int
        } else {
            t.elapsed + total(ds)
        },
    decreases ds.len(),
{
    if ds.len() > 0 {
        lemma_run_elapsed(t, ds.drop_last());
    }
}

/// The sum of a prefix never exceeds the sum of a longer prefix.
pub proof fn lemma_total_monotone(ds: Seq<u64>, i: int, j: int)
    requires
        0 <= i <= j <= ds.len(),
    ensures
        total(ds.subrange(0, i)) <= total(ds.subrange(0, j)),
    decreases j - i,
{
    if i < j {
        lemma_total_monotone(ds, i, j - 1);
        assert(ds.subrange(0, j).drop_last() =~= ds.subrange(0, j - 1));
    }
}

/// A running timer finishes on exactly one tick of a sequence: the first
/// tick at which its elapsed time plus the ticks so far reaches the
/// duration. It finishes on no tick before that one, and on none after.
pub proof fn lemma_finishes_once(t: Timer, ds: Seq<u64>, k: int)
    requires
        t.wf(),
        !t.is_finished(),
        0 <= k < ds.len(),
    ensures
        (!t.run(ds.subrange(0, k)).is_finished() && t.run(ds.subrange(0, k + 1)).is_finished())
            <==> (t.elapsed + total(ds.subrange(0, k)) < t.duration && t.elapsed + total(
            ds.subrange(0, k + 1),
        ) >= t.duration),
        forall|j: int|
            0 <= j <= k && t.elapsed + total(ds.subrange(0, k)) < t.duration ==> !(#[trigger] t.run(
                ds.subrange(0, j),
            )).is_finished(),
        forall|j: int|
            k < j <= ds.len() && t.elapsed + total(ds.subrange(0, k + 1)) >= t.duration ==> (
            #[trigger] t.run(ds.subrange(0, j))).is_finished(),
{
    lemma_run_elapsed(t, ds.subrange(0, k));
    lemma_run_elapsed(t, ds.subrange(0, k + 1));
    assert forall|j: int|
        0 <= j <= k && t.elapsed + total(ds.subrange(0, k)) < t.duration implies !(#[trigger] t.run(
            ds.subrange(0, j),
        )).is_finished() by {
        lemma_run_elapsed(t, ds.subrange(0, j));
        lemma_total_monotone(ds, j, k);
    }
    assert forall|j: int|
        k < j <= ds.len() && t.elapsed + total(ds.subrange(0, k + 1)) >= t.duration implies (
        #[trigger] t.run(ds.subrange(0, j))).is_finished() by {
        lemma_run_elapsed(t, ds.subrange(0, j));
        lemma_total_monotone(ds, k + 1, j);
    }
}

} // verus!
