pub mod ball;
pub mod block;
pub mod collision;
pub mod player;
pub mod game;
pub mod geom;
pub mod rng;
pub mod unitvec;

use vstd::prelude::*;

verus! {

/// Scale of the fixed-point coordinate grid: one pixel is `PX` units.
pub const PX: i64 = 1000;

/// Smallest playable screen edge: 200 pixels. The paddle sits a fixed 100
/// pixels above the bottom and the board starts 50 pixels down, so edges
/// much below this leave no room for either.
pub const SCREEN_MIN: i64 = 200_000;

/// Largest supported screen edge: a million pixels.
pub const SCREEN_MAX: i64 = 1_000_000_000;

/// The longest frame time one tick accepts, in milliseconds. The movement
/// product velocity * speed * dt must fit in i64: with velocity components
/// up to 20000 and speeds up to a billion units per second, 460000 ms is
/// just inside the representable range.
pub const DT_MAX: i64 = 460_000;

/// Screen dimensions the simulation supports: both edges within the fixed
/// bounds, and an aspect ratio no wider than ten to one, so that a ball
/// (whose radius follows the screen size) always fits between opposite walls.
pub open spec fn screen_ok(w: int, h: int) -> bool {
    &&& SCREEN_MIN <= w <= SCREEN_MAX
    &&& SCREEN_MIN <= h <= SCREEN_MAX
    &&& w <= 10 * h
    &&& h <= 10 * w
}

} // verus!
