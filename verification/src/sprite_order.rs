//! Draw-layer tags for the renderer.
//!
//! Purely presentational: the simulation core never reads these, but the
//! renderer keys its z ordering off them. Kept here so that callers and the
//! presentation layer share one vocabulary.

use vstd::prelude::*;

verus! {

/// Which layer a sprite is drawn on, back to front.
#[derive(Clone, Copy, PartialEq, Eq, Structural, Debug)]
pub enum SpriteOrder {
    MAP,
    GRASS,
    Player,
    Gun,
    Bullet,
    Enemy,
}

} // verus!
