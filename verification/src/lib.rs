//! Cellular automata on square grids stored row by row: falling sand on a
//! bounded grid and the Game of Life on a torus.

pub mod layout;
pub mod life;
pub mod life_theorems;
pub mod random;
pub mod sand;
pub mod sand_theorems;

use vstd::prelude::*;

verus! {

/// Width of the window in physical pixels.
pub const SCREEN_WIDTH: u32 = 512;

/// Height of the window in physical pixels.
pub const SCREEN_HEIGHT: u32 = 512;

} // verus!
