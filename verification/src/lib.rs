use vstd::prelude::*;

pub mod bidule;
pub mod bonuses;
pub mod game;
pub mod grid;
pub mod rng;
pub mod special_bidule;

verus! {

/// Width of the playing field, in cells.
pub const GRID_WIDTH: usize = 10;

/// Height of the playing field, in cells. Row 0 is the topmost (spawn) row.
pub const GRID_HEIGHT: usize = 20;

} // verus!
