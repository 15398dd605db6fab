//! Countdown timers that bound a collision volume's lifetime.
//!
//! A one-shot timer accumulates elapsed time until it reaches its duration
//! and then stays finished; the lifecycle manager removes its volume on that
//! tick. A repeating timer wraps around instead and never stays finished, so
//! it never triggers removal.

use vstd::prelude::*;
use vstd::arithmetic::div_mod::lemma_mod_multiples_vanish;
use vstd::arithmetic::div_mod::lemma_small_mod;

verus! {

/// A countdown over unsigned tick durations (e.g. nanoseconds).
#[derive(Clone, Copy, Debug, PartialEq, Eq, Structural)]
pub struct Timer {
    /// Time accumulated so far; never exceeds `duration`.
    pub elapsed: u64,
    /// The time at which the timer fires.
    pub duration: u64,
    /// A repeating timer wraps around on firing and never expires its owner.
    pub repeating: bool,
}

impl Timer {
    /// Internal invariant: the accumulated time is capped at the duration.
    pub open spec fn wf(self) -> bool {
        self.elapsed <= self.duration
    }

    /// A timer is finished once the accumulated time reaches its duration.
    pub open spec fn spec_finished(self) -> bool {
        self.elapsed >= self.duration
    }

    /// The timer after one tick of `delta`: a one-shot timer saturates at its
    /// duration, a repeating timer wraps around modulo its duration.
    pub open spec fn spec_ticked(self, delta: u64) -> Timer {
        if self.repeating {
            if self.duration == 0 {
                Timer { elapsed: 0, ..self }
            } else {
                Timer { elapsed: ((self.elapsed + delta) % (self.duration as int)) as u64, ..self }
            }
        } else {
            if self.elapsed + delta >= self.duration {
                Timer { elapsed: self.duration, ..self }
            } else {
                Timer { elapsed: (self.elapsed + delta) as u64, ..self }
            }
        }
    }

    pub fn new(duration: u64, repeating: bool) -> (t: Timer)
        ensures
            t == (Timer { elapsed: 0u64, duration, repeating }),
            t.wf(),
    {
        Timer { elapsed: 0, duration, repeating }
    }

    pub fn finished(&self) -> (r: bool)
        ensures
            r == self.spec_finished(),
    {
        self.elapsed >= self.duration
    }

    /// Advance the timer by one tick's elapsed duration.
    pub fn tick(&mut self, delta: u64)
        requires
            old(self).wf(),
        ensures
            *final(self) == old(self).spec_ticked(delta),
            final(self).wf(),
    {
        if self.repeating {
            if self.duration == 0 {
                self.elapsed = 0;
            } else {
                let room: u64 = self.duration - self.elapsed;
                if delta >= room {
                    let wrapped: u64 = (delta - room) % self.duration;
                    proof {
                        lemma_mod_multiples_vanish(
                            1,
                            delta - room,
                            self.duration as int,
                        );
                    }
                    self.elapsed = wrapped;
                } else {
                    proof {
                        lemma_small_mod((self.elapsed + delta) as nat, self.duration as nat);
                    }
                    self.elapsed = self.elapsed + delta;
                }
            }
        } else {
            let room: u64 = self.duration - self.elapsed;
            if delta >= room {
                self.elapsed = self.duration;
            } else {
                self.elapsed = self.elapsed + delta;
            }
        }
    }
}

/// The timer after a whole sequence of ticks, applied front to back.
pub open spec fn spec_ticked_all(t: Timer, deltas: Seq<u64>) -> Timer
    decreases deltas.len(),
{
    if deltas.len() == 0 {
        t
    } else {
        spec_ticked_all(t.spec_ticked(deltas[0]), deltas.drop_first())
    }
}

/// The total time delivered by a sequence of ticks.
pub open spec fn sum_of(deltas: Seq<u64>) -> int
    decreases deltas.len(),
{
    if deltas.len() == 0 {
        0
    } else {
        deltas[0] + sum_of(deltas.drop_first())
    }
}

pub proof fn lemma_sum_of_nonneg(deltas: Seq<u64>)
    ensures
        sum_of(deltas) >= 0,
    decreases deltas.len(),
{
    if deltas.len() > 0 {
        lemma_sum_of_nonneg(deltas.drop_first());
    }
}

/// Ticking preserves the timer's internal invariant.
pub proof fn lemma_ticked_wf(t: Timer, delta: u64)
    requires
        t.wf(),
    ensures
        t.spec_ticked(delta).wf(),
{
}

/// Law: a one-shot timer advanced by any sequence of ticks is finished if
/// and only if the delivered durations, together with what had already
/// elapsed, sum to at least the timer's duration — so it fires on the tick
/// where the cumulative time first reaches the duration, and never before.
pub proof fn lemma_one_shot_expiry(t: Timer, deltas: Seq<u64>)
    requires
        t.wf(),
        !t.repeating,
    ensures
        spec_ticked_all(t, deltas).spec_finished() <==> t.elapsed + sum_of(deltas)
            >= t.duration,
    decreases deltas.len(),
{
    if deltas.len() == 0 {
    } else {
        let t1 = t.spec_ticked(deltas[0]);
        lemma_one_shot_expiry(t1, deltas.drop_first());
        if t.elapsed + deltas[0] >= t.duration {
            lemma_sum_of_nonneg(deltas.drop_first());
        }
    }
}

} // verus!
