use vstd::prelude::*;

verus! {

/// Side of a toolbar icon, in logical pixels.
pub const ICON: i128 = 16;

/// Side of a tile at zoom 1, in logical pixels.
pub const TILE: i128 = 8;

/// Width of a grid when the editor starts.
pub const GRID_X: usize = 6;

/// Height of a grid when the editor starts.
pub const GRID_Y: usize = 6;

/// Largest width or height that `Grid::grow` builds up to by default.
pub const GRID_MAX: usize = 24;

/// Width of the drawing surface, in logical pixels.
pub const WIDTH: i128 = 320;

/// Height of the drawing surface, in logical pixels.
pub const HEIGHT: i128 = 200;

/// Strip on the left that is kept for the toolbar.
pub const LEFT_MARGIN: i128 = 32;

/// Strip at the bottom that is kept for the quick tiles.
pub const BOTTOM_MARGIN: i128 = 40;

} // verus!
