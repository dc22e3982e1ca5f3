//! The pencil: a left click paints a cell with the selection, a right click
//! takes the selection from the cell.
use vstd::prelude::*;

use crate::grid::{Grid, Tile};
use crate::mouse::{ButtonId, Clicked};
use crate::quick_tiles::Selection;
use crate::tile_map::Coord;
use crate::toolbar::SelectedTool;

verus! {

/// What a click did.
#[derive(Clone, Copy, Debug)]
pub enum Stroke {
    /// Nothing: another tool is selected, the click was not on a cell, or
    /// the grid has no cell there.
    Nothing,
    /// The cell at the coordinate was changed.
    Changed(Coord),
    /// The selection was taken from a cell.
    Picked,
}

/// A tile painted with the selection: the colours are the selection's; the
/// glyph, its rotation and its flip are too, unless shift keeps them.
pub open spec fn painted(tile: Tile, selection: Selection, shift: bool) -> Tile {
    if shift {
        Tile { bg: selection.bg, fg: selection.fg, ..tile }
    } else {
        Tile {
            bg: selection.bg,
            fg: selection.fg,
            index: selection.index,
            rotation: selection.rotation,
            flip: (selection.flip, tile.flip.1),
        }
    }
}

/// The selection taken from a tile: the colours are the tile's; the glyph,
/// its rotation and its flip are too, unless shift keeps them.
pub open spec fn picked(selection: Selection, tile: Tile, shift: bool) -> Selection {
    if shift {
        Selection { bg: tile.bg, fg: tile.fg, ..selection }
    } else {
        Selection {
            bg: tile.bg,
            fg: tile.fg,
            index: tile.index,
            rotation: tile.rotation,
            flip: tile.flip.0,
        }
    }
}

/// The coordinate that the pencil works on at a click: the click is on a
/// cell that the grid has, and the pencil is the selected tool.
pub open spec fn target(tool: SelectedTool, clicked: Clicked, grid: &Grid) -> Option<Coord> {
    match clicked.0 {
        ButtonId::Grid(x, y) => if tool.0 is Pencil && grid.cell_at((x, y)) is Some {
            Some((x, y))
        } else {
            None
        },
        _ => None,
    }
}

/// Carries one click out.
pub fn update(
    tool: &SelectedTool,
    shift: bool,
    selection: &mut Selection,
    clicked: &Clicked,
    grid: &mut Grid,
) -> (stroke: Stroke)
    requires
        old(grid).wf(),
    ensures
        final(grid).wf(),
        final(grid).same_rect(old(grid)),
        final(grid).spec_resized() == old(grid).spec_resized(),
        final(grid).spec_limit() == old(grid).spec_limit(),
        final(grid).live() == old(grid).live(),
        match target(*tool, *clicked, old(grid)) {
            None => stroke is Nothing && final(grid).cells() == old(grid).cells() && *final(selection) == *old(selection),
            Some(at) => if clicked.1 {
                &&& stroke is Picked
                &&& final(grid).cells() == old(grid).cells()
                &&& *final(selection) == picked(*old(selection), old(grid).cells()[at].0, shift)
            } else {
                &&& stroke == Stroke::Changed(at)
                &&& *final(selection) == *old(selection)
                &&& final(grid).cells() == old(grid).cells().insert(
                    at,
                    (
                        painted(old(grid).cells()[at].0, *old(selection), shift),
                        old(grid).cells()[at].1,
                    ),
                )
            },
        },
{
    match tool.0 {
        crate::tools::Tools::Pencil => {},
        _ => {
            return Stroke::Nothing;
        },
    }
    let (x, y) = match clicked.0 {
        ButtonId::Grid(x, y) => (x, y),
        _ => {
            return Stroke::Nothing;
        },
    };
    let tile = match grid.get(x, y) {
        Some(tile) => *tile,
        None => {
            return Stroke::Nothing;
        },
    };
    if clicked.1 {
        selection.bg = tile.bg;
        selection.fg = tile.fg;
        if !shift {
            selection.index = tile.index;
            selection.rotation = tile.rotation;
            selection.flip = tile.flip.0;
        }
        Stroke::Picked
    } else {
        let mut next = tile;
        next.bg = selection.bg;
        next.fg = selection.fg;
        if !shift {
            next.index = selection.index;
            next.rotation = selection.rotation;
            next.flip = (selection.flip, tile.flip.1);
        }
        grid.set_tile(x, y, next);
        Stroke::Changed((x, y))
    }
}

} // verus!
