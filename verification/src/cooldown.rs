//! Per-target damage cooldown.
//!
//! A single countdown timer per actor channel, measured in integer
//! milliseconds of simulated time. The timer is ready (`Idle`) when no time
//! remains; applying damage rearms it to the configured duration; ticking
//! counts it down and never below zero. Only a successful application rearms
//! the timer — reading readiness has no side effect.

use vstd::prelude::*;

verus! {

/// Cooldown channel state: the time still to wait, and the duration the
/// channel rearms to whenever damage is actually applied.
#[derive(Clone, Copy, PartialEq, Eq, Structural, Debug)]
pub struct DamageCooldown {
    pub remaining: u64,
    pub duration: u64,
}

impl DamageCooldown {
    /// Ready (`Idle`): the channel accepts damage.
    pub open spec fn spec_is_ready(self) -> bool {
        self.remaining == 0
    }

    /// The channel after `dt` milliseconds pass: count down, saturating at
    /// zero.
    pub open spec fn spec_tick(self, dt: u64) -> DamageCooldown {
        DamageCooldown {
            remaining: if self.remaining >= dt {
                (self.remaining - dt) as u64
            } else {
                0u64
            },
            duration: self.duration,
        }
    }

    /// The channel after damage was actually applied: rearmed to the full
    /// configured duration.
    pub open spec fn spec_mark_applied(self) -> DamageCooldown {
        DamageCooldown { remaining: self.duration, duration: self.duration }
    }

    /// A fresh channel starts ready: a target that has never been hit may be
    /// hit at once.
    pub fn new(duration: u64) -> (c: DamageCooldown)
        ensures
            c.duration == duration,
            c.spec_is_ready(),
    {
        DamageCooldown { remaining: 0, duration }
    }

    /// Read-only readiness test.
    pub fn is_ready(&self) -> (r: bool)
        ensures
            r == self.spec_is_ready(),
    {
        self.remaining == 0
    }

    /// Rearm after a successful damage application.
    pub fn mark_applied(&mut self)
        ensures
            *final(self) == old(self).spec_mark_applied(),
    {
        self.remaining = self.duration;
    }

    /// Advance simulated time by `dt` milliseconds.
    pub fn tick(&mut self, dt: u64)
        ensures
            *final(self) == old(self).spec_tick(dt),
    {
        if self.remaining >= dt {
            self.remaining = self.remaining - dt;
        } else {
            self.remaining = 0;
        }
    }
}

/// A rearmed channel stays blocked under any run of ticks that together
/// advance time by less than the configured duration: damage applied once
/// cannot be applied again within the cooldown window.
pub proof fn lemma_cooldown_blocks_within_window(c: DamageCooldown, dts: Seq<u64>)
    requires
        sum_ticks(dts) < c.remaining,
    ensures
        !tick_all(c, dts).spec_is_ready(),
        tick_all(c, dts).remaining >= c.remaining - sum_ticks(dts),
        tick_all(c, dts).duration == c.duration,
    decreases dts.len(),
{
    if dts.len() > 0 {
        lemma_cooldown_blocks_within_window(c.spec_tick(dts[0]), dts.drop_first());
    }
}

/// The channel after a whole run of ticks, applied in order.
pub open spec fn tick_all(c: DamageCooldown, dts: Seq<u64>) -> DamageCooldown
    decreases dts.len(),
{
    if dts.len() == 0 {
        c
    } else {
        tick_all(c.spec_tick(dts[0]), dts.drop_first())
    }
}

/// Total simulated time of a run of ticks.
pub open spec fn sum_ticks(dts: Seq<u64>) -> int
    decreases dts.len(),
{
    if dts.len() == 0 {
        0
    } else {
        dts[0] + sum_ticks(dts.drop_first())
    }
}

} // verus!
