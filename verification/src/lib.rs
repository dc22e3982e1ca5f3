//! A tile-map editor core: a resizable grid of coloured glyph tiles, the
//! mapping from tile coordinates to screen positions, pointer hit-testing
//! with press debouncing, change batching, and the clipboard text format.
//!
//! Everything here works on plain integers. Screen positions are whole
//! logical pixels; the zoom factor is held in quarters so that every position
//! the mapper computes is exact.
pub mod arena;
pub mod grid;
pub mod mouse;
pub mod quick_tiles;
pub mod tile_map;
pub mod toolbar;
pub mod tools;
pub mod util;
