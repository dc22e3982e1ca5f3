//! The eraser: a click gives a cell the empty glyph in the selection's
//! colours.
use vstd::prelude::*;

use crate::grid::{Grid, Tile};
use crate::mouse::{ButtonId, Clicked};
use crate::quick_tiles::Selection;
use crate::tile_map::Coord;
use crate::toolbar::SelectedTool;

verus! {

/// A tile after erasing: glyph 0 in the selection's colours; rotation and
/// flip stay.
pub open spec fn erased(tile: Tile, selection: Selection) -> Tile {
    Tile { bg: selection.bg, fg: selection.fg, index: 0, ..tile }
}

/// The coordinate that the eraser works on at a click: the click is on a
/// cell that the grid has, and the eraser is the selected tool.
pub open spec fn target(tool: SelectedTool, clicked: Clicked, grid: &Grid) -> Option<Coord> {
    match clicked.0 {
        ButtonId::Grid(x, y) => if tool.0 is Eraser && grid.cell_at((x, y)) is Some {
            Some((x, y))
        } else {
            None
        },
        _ => None,
    }
}

/// Carries one click out, whichever button made it. Returns the coordinate
/// of the cell that was erased.
pub fn update(tool: &SelectedTool, selection: &Selection, clicked: &Clicked, grid: &mut Grid) -> (
    changed: Option<Coord>
)
    requires
        old(grid).wf(),
    ensures
        final(grid).wf(),
        final(grid).same_rect(old(grid)),
        final(grid).spec_resized() == old(grid).spec_resized(),
        final(grid).spec_limit() == old(grid).spec_limit(),
        final(grid).live() == old(grid).live(),
        changed == target(*tool, *clicked, old(grid)),
        changed is None ==> final(grid).cells() == old(grid).cells(),
        changed is Some ==> final(grid).cells() == old(grid).cells().insert(
            changed->0,
            (
                erased(old(grid).cells()[changed->0].0, *selection),
                old(grid).cells()[changed->0].1,
            ),
        ),
{
    match tool.0 {
        crate::tools::Tools::Eraser => {},
        _ => {
            return None;
        },
    }
    let (x, y) = match clicked.0 {
        ButtonId::Grid(x, y) => (x, y),
        _ => {
            return None;
        },
    };
    let tile = match grid.get(x, y) {
        Some(tile) => *tile,
        None => {
            return None;
        },
    };
    let mut next = tile;
    next.bg = selection.bg;
    next.fg = selection.fg;
    next.index = 0;
    grid.set_tile(x, y, next);
    Some((x, y))
}

} // verus!
