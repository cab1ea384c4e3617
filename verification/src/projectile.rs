//! Projectile bookkeeping: lifespan, maximum travel distance, and the
//! fire-rate limiter of the gun that emits projectiles.
//!
//! Projectiles carry position but no health; their movement belongs to the
//! physics collaborator. What this core decides is when a projectile
//! expires and when the gun may fire again.

use vstd::prelude::*;
use crate::spatial::COORD_LIMIT;
use crate::spatial::RADIUS_LIMIT;
use crate::spatial::dist_sq;
use crate::spatial::lemma_square_bound;

verus! {

/// Remaining lifetime of a projectile, in milliseconds of simulated time.
#[derive(Clone, Copy, PartialEq, Eq, Structural, Debug)]
pub struct Lifespan {
    pub remaining: u64,
}

impl Lifespan {
    /// The lifespan after `dt` milliseconds, saturating at zero.
    pub open spec fn spec_tick(self, dt: u64) -> Lifespan {
        Lifespan {
            remaining: if self.remaining >= dt {
                (self.remaining - dt) as u64
            } else {
                0u64
            },
        }
    }

    pub open spec fn spec_expired(self) -> bool {
        self.remaining == 0
    }

    pub fn new(duration: u64) -> (l: Lifespan)
        ensures
            l.remaining == duration,
    {
        Lifespan { remaining: duration }
    }

    pub fn tick(&mut self, dt: u64)
        ensures
            *final(self) == old(self).spec_tick(dt),
    {
        if self.remaining >= dt {
            self.remaining = self.remaining - dt;
        } else {
            self.remaining = 0;
        }
    }

    /// A projectile whose lifetime has run out is removed by its owner.
    pub fn expired(&self) -> (r: bool)
        ensures
            r == self.spec_expired(),
    {
        self.remaining == 0
    }
}

/// Whether a projectile has travelled farther from its spawn point than its
/// maximum range allows (and is therefore removed).
pub fn traveled_beyond(spawn_x: i64, spawn_y: i64, x: i64, y: i64, max_travel: i64) -> (r: bool)
    requires
        -COORD_LIMIT <= spawn_x <= COORD_LIMIT,
        -COORD_LIMIT <= spawn_y <= COORD_LIMIT,
        -COORD_LIMIT <= x <= COORD_LIMIT,
        -COORD_LIMIT <= y <= COORD_LIMIT,
        0 <= max_travel <= RADIUS_LIMIT,
    ensures
        r == (dist_sq(x as int, y as int, spawn_x as int, spawn_y as int) > (max_travel as int) * (
        max_travel as int)),
{
    let dx = x - spawn_x;
    let dy = y - spawn_y;
    proof {
        lemma_square_bound(dx as int, 2_000_000_000);
        lemma_square_bound(dy as int, 2_000_000_000);
        lemma_square_bound(max_travel as int, 2_000_000_000);
    }
    dx * dx + dy * dy > max_travel * max_travel
}

/// Fire-rate limiter of the gun: one shot at most every `interval`
/// milliseconds, and only while the trigger is held. A fresh gun waits one
/// full interval before its first shot.
#[derive(Clone, Copy, PartialEq, Eq, Structural, Debug)]
pub struct GunTimer {
    pub remaining: u64,
    pub interval: u64,
}

impl GunTimer {
    /// The limiter after `dt` milliseconds, saturating at zero.
    pub open spec fn spec_tick(self, dt: u64) -> GunTimer {
        GunTimer {
            remaining: if self.remaining >= dt {
                (self.remaining - dt) as u64
            } else {
                0u64
            },
            interval: self.interval,
        }
    }

    pub fn new(interval: u64) -> (g: GunTimer)
        ensures
            g.remaining == interval,
            g.interval == interval,
    {
        GunTimer { remaining: interval, interval }
    }

    /// Advance the limiter by `dt` and decide whether a shot fires now: the
    /// trigger must be held and the interval must have elapsed. Firing
    /// rearms the limiter to the full interval.
    pub fn try_fire(&mut self, trigger_held: bool, dt: u64) -> (fired: bool)
        ensures
            fired == (trigger_held && old(self).spec_tick(dt).remaining == 0),
            *final(self) == if fired {
                GunTimer { remaining: old(self).interval, interval: old(self).interval }
            } else {
                old(self).spec_tick(dt)
            },
    {
        self.tick(dt);
        if !trigger_held {
            return false;
        }
        if self.remaining != 0 {
            return false;
        }
        self.remaining = self.interval;
        true
    }

    fn tick(&mut self, dt: u64)
        ensures
            *final(self) == old(self).spec_tick(dt),
    {
        if self.remaining >= dt {
            self.remaining = self.remaining - dt;
        } else {
            self.remaining = 0;
        }
    }
}

} // verus!
