//! The poll scheduler's timing arithmetic.
//!
//! The scheduler keeps a fixed cadence: dispatch every sensor, wait for
//! the slowest, then sleep for whatever is left of the target interval.
//! The sleep is computed from the cycle's actual elapsed time, so jitter
//! does not accumulate; a cycle that overruns the interval is followed
//! immediately — the sleep is never negative — and no cycle is skipped.
//! Time is measured in milliseconds.  The sleeping itself, like all clock
//! reads, is done by the surrounding binary.

use vstd::prelude::*;

verus! {

/// The sleep that keeps the cadence: the part of the target interval the
/// cycle has not already used up, and zero when the cycle overran.
pub open spec fn spec_time_until_next_wakeup(
    last_wakeup_ms: int,
    now_ms: int,
    target_interval_ms: int,
) -> int {
    if now_ms - last_wakeup_ms >= target_interval_ms {
        0
    } else {
        target_interval_ms - (now_ms - last_wakeup_ms)
    }
}

/// How long to sleep before the next cycle, given when the current cycle
/// started and the time now.
pub fn time_until_next_wakeup(last_wakeup_ms: u64, now_ms: u64, target_interval_ms: u64) -> (sleep_ms:
    u64)
    requires
        last_wakeup_ms <= now_ms,
    ensures
        sleep_ms == spec_time_until_next_wakeup(
            last_wakeup_ms as int,
            now_ms as int,
            target_interval_ms as int,
        ),
{
    let elapsed = now_ms - last_wakeup_ms;
    if elapsed >= target_interval_ms {
        0
    } else {
        target_interval_ms - elapsed
    }
}

/// The scheduler's state between cycles: when it last woke up and the
/// cadence it keeps.
pub struct PollCycle {
    last_wakeup_ms: u64,
    target_interval_ms: u64,
}

impl PollCycle {
    pub closed spec fn spec_last_wakeup_ms(&self) -> u64 {
        self.last_wakeup_ms
    }

    pub closed spec fn spec_target_interval_ms(&self) -> u64 {
        self.target_interval_ms
    }

    pub fn new(target_interval_ms: u64, now_ms: u64) -> (cycle: PollCycle)
        ensures
            cycle.spec_target_interval_ms() == target_interval_ms,
            cycle.spec_last_wakeup_ms() == now_ms,
    {
        PollCycle { last_wakeup_ms: now_ms, target_interval_ms }
    }

    /// When the scheduler last woke up, for the caller that reads the
    /// clock.
    pub fn last_wakeup_ms(&self) -> (last: u64)
        ensures
            last == self.spec_last_wakeup_ms(),
    {
        self.last_wakeup_ms
    }

    /// The sleep to take once the cycle's work has finished, at `now_ms`.
    pub fn sleep_duration(&self, now_ms: u64) -> (sleep_ms: u64)
        requires
            self.spec_last_wakeup_ms() <= now_ms,
        ensures
            sleep_ms == spec_time_until_next_wakeup(
                self.spec_last_wakeup_ms() as int,
                now_ms as int,
                self.spec_target_interval_ms() as int,
            ),
    {
        time_until_next_wakeup(self.last_wakeup_ms, now_ms, self.target_interval_ms)
    }

    /// Record when the sleep actually ended.  The timestamp is taken after
    /// the sleep, not before it, so sleep and scheduling jitter do not
    /// accumulate across cycles.
    pub fn advance(&mut self, woke_at_ms: u64)
        ensures
            final(self).spec_last_wakeup_ms() == woke_at_ms,
            final(self).spec_target_interval_ms() == old(self).spec_target_interval_ms(),
    {
        self.last_wakeup_ms = woke_at_ms;
    }
}

/// The cadence law: a cycle whose work fits inside the interval is
/// followed exactly one target interval after it started, and a cycle
/// that overran is followed immediately.  Either way the next start is
/// the later of the two, so an overrun delays by its own excess only and
/// drift never compounds.
pub proof fn lemma_cycle_cadence(cycle_start_ms: int, work_ms: int, target_interval_ms: int)
    requires
        0 <= work_ms,
    ensures
        ({
            let finish = cycle_start_ms + work_ms;
            let next_start = finish + spec_time_until_next_wakeup(
                cycle_start_ms,
                finish,
                target_interval_ms,
            );
            next_start == cycle_start_ms + (if work_ms >= target_interval_ms {
                work_ms
            } else {
                target_interval_ms
            })
        }),
{
}

} // verus!
