use vstd::prelude::*;

verus! {

/// Glyph selected when the editor starts.
pub const DEFAULT_TILE: usize = 1;

/// Number of glyphs in the tileset.
pub const TILESET_COUNT: usize = 1024;

/// Rows of the quick-tile strip.
pub const QUICK_TILES_ROWS: usize = 4;

/// Quick tiles in one row of the strip.
pub const QUICK_TILES_PER_ROW: usize = 32;

} // verus!
