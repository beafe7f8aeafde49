//! A one-shot countdown timer with explicit `tick` / `finished` / `reset`
//! semantics, measured in whole milliseconds. Elapsed time is capped at the
//! configured duration, so a finished timer stays finished until reset.

use vstd::prelude::*;

verus! {

/// One-shot elapsed-duration timer. `elapsed_ms` never exceeds `duration_ms`.
#[derive(Clone, Copy, Debug, PartialEq, Eq, Structural)]
pub struct SimTimer {
    pub elapsed_ms: u64,
    pub duration_ms: u64,
}

impl SimTimer {
    /// The timer keeps its elapsed time within the configured duration.
    pub open spec fn wf(self) -> bool {
        self.elapsed_ms <= self.duration_ms
    }

    pub open spec fn spec_finished(self) -> bool {
        self.elapsed_ms >= self.duration_ms
    }

    pub fn new(duration_ms: u64) -> (t: SimTimer)
        ensures
            t.wf(),
            t.elapsed_ms == 0,
            t.duration_ms == duration_ms,
    {
        SimTimer { elapsed_ms: 0, duration_ms }
    }

    /// Advance the timer by `delta_ms`, capping at the duration. Returns true
    /// exactly when this tick is the one that completed the timer.
    pub fn tick(&mut self, delta_ms: u64) -> (just_finished: bool)
        requires
            old(self).wf(),
        ensures
            final(self).wf(),
            final(self).duration_ms == old(self).duration_ms,
            final(self).elapsed_ms == if old(self).elapsed_ms + delta_ms
                >= old(self).duration_ms {
                old(self).duration_ms as int
            } else {
                old(self).elapsed_ms + delta_ms
            },
            just_finished == (!old(self).spec_finished() && final(self).spec_finished()),
    {
        let was_finished = self.elapsed_ms >= self.duration_ms;
        if delta_ms >= self.duration_ms - self.elapsed_ms {
            self.elapsed_ms = self.duration_ms;
        } else {
            self.elapsed_ms = self.elapsed_ms + delta_ms;
        }
        !was_finished && self.elapsed_ms >= self.duration_ms
    }

    pub fn finished(&self) -> (r: bool)
        ensures
            r == self.spec_finished(),
    {
        self.elapsed_ms >= self.duration_ms
    }

    /// Rewind the timer to an un-elapsed state.
    pub fn reset(&mut self)
        ensures
            final(self).elapsed_ms == 0,
            final(self).duration_ms == old(self).duration_ms,
            final(self).wf(),
    {
        self.elapsed_ms = 0;
    }

    /// Time left before the timer completes.
    pub fn remaining_ms(&self) -> (r: u64)
        requires
            self.wf(),
        ensures
            r == self.duration_ms - self.elapsed_ms,
    {
        self.duration_ms - self.elapsed_ms
    }
}

} // verus!
