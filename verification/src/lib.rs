//! Core simulation logic for a 2D arena shooter: spatial proximity queries
//! over the moving actor set, damage resolution with per-target cooldowns,
//! clamped health bookkeeping, and population control with spawn throttling
//! and deferred removal of the dead.

pub mod cooldown;
pub mod damage;
pub mod health;
pub mod population;
pub mod producers;
pub mod projectile;
pub mod simulation;
pub mod spatial;
pub mod sprite_order;
