//! Hit-point bookkeeping for one actor.
//!
//! `current` never leaves the interval `[0, max]`: damage clamps at zero,
//! healing clamps at `max`, and nothing else mutates the record.

use vstd::prelude::*;

verus! {

/// Hit points of a live actor. Well-formed values keep `current` in `[0, max]`.
#[derive(Clone, Copy, PartialEq, Eq, Structural, Debug)]
pub struct Health {
    pub current: u32,
    pub max: u32,
}

/// One mutation of a health record, used to state that clamping holds over
/// arbitrary interleavings of damage and healing.
#[derive(Clone, Copy, PartialEq, Eq, Structural, Debug)]
pub enum HealthOp {
    Damage(u32),
    Heal(u32),
}

impl Health {
    /// A positive maximum, and a current value clamped to `[0, max]`.
    pub open spec fn wf(self) -> bool {
        0 < self.max && self.current <= self.max
    }

    pub open spec fn spec_is_alive(self) -> bool {
        self.current > 0
    }

    /// The record after taking `amount` damage: subtract, clamped at zero.
    pub open spec fn spec_damage(self, amount: u32) -> Health {
        Health {
            current: if self.current >= amount {
                (self.current - amount) as u32
            } else {
                0u32
            },
            max: self.max,
        }
    }

    /// The record after healing by `amount`: add, clamped at `max`.
    pub open spec fn spec_heal(self, amount: u32) -> Health {
        Health {
            current: if self.current + amount <= self.max {
                (self.current + amount) as u32
            } else {
                self.max
            },
            max: self.max,
        }
    }

    /// The record after an arbitrary single operation.
    pub open spec fn spec_apply_op(self, op: HealthOp) -> Health {
        match op {
            HealthOp::Damage(amount) => self.spec_damage(amount),
            HealthOp::Heal(amount) => self.spec_heal(amount),
        }
    }

    /// The record after a whole sequence of operations, applied in order.
    pub open spec fn spec_apply_ops(self, ops: Seq<HealthOp>) -> Health
        decreases ops.len(),
    {
        if ops.len() == 0 {
            self
        } else {
            self.spec_apply_op(ops[0]).spec_apply_ops(ops.drop_first())
        }
    }

    /// A fresh record starts at full health.
    pub fn new(max: u32) -> (h: Health)
        requires
            max > 0,
        ensures
            h.wf(),
            h.current == max,
            h.max == max,
    {
        Health { current: max, max }
    }

    pub fn is_alive(&self) -> (r: bool)
        ensures
            r == self.spec_is_alive(),
    {
        self.current > 0
    }

    pub fn max(&self) -> (r: u32)
        ensures
            r == self.max,
    {
        self.max
    }

    pub fn current(&self) -> (r: u32)
        ensures
            r == self.current,
    {
        self.current
    }

    /// Subtract `amount` from `current`, clamping at zero.
    pub fn damage(&mut self, amount: u32)
        requires
            old(self).wf(),
        ensures
            *final(self) == old(self).spec_damage(amount),
            final(self).wf(),
    {
        if amount >= self.current {
            self.current = 0;
        } else {
            self.current = self.current - amount;
        }
    }

    /// Add `amount` to `current`, clamping at `max`.
    pub fn heal(&mut self, amount: u32)
        requires
            old(self).wf(),
        ensures
            *final(self) == old(self).spec_heal(amount),
            final(self).wf(),
    {
        if amount >= self.max - self.current {
            self.current = self.max;
        } else {
            self.current = self.current + amount;
        }
    }
}

/// Health clamping: starting from a well-formed record, any sequence of
/// damage and heal operations leaves `current` within `[0, max]` and never
/// changes `max`.
pub proof fn lemma_health_ops_stay_clamped(h: Health, ops: Seq<HealthOp>)
    requires
        h.wf(),
    ensures
        h.spec_apply_ops(ops).wf(),
        h.spec_apply_ops(ops).max == h.max,
    decreases ops.len(),
{
    if ops.len() > 0 {
        lemma_health_ops_stay_clamped(h.spec_apply_op(ops[0]), ops.drop_first());
    }
}

} // verus!
