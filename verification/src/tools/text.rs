//! The text tool: a click sets the cursor, a letter key writes its glyph at
//! the cursor and moves the cursor on, the return key starts the next line.
use vstd::prelude::*;

use crate::grid::{Grid, Tile};
use crate::mouse::{ButtonId, Clicked};
use crate::quick_tiles::Selection;
use crate::tile_map::Coord;
use crate::toolbar::SelectedTool;
use crate::util::{char_to_tile, get_char, spec_char_to_tile, spec_get_char, Key};

verus! {

/// Glyph of the text cursor.
pub const CURSOR_GLYPH: usize = 927;

/// Frames of one blink of the cursor.
pub const BLINK_FRAMES: usize = 60;

/// Where the text cursor stands, where its line began, and how far its blink
/// has gone.
#[derive(Clone, Copy, Debug)]
pub struct TextCursorState {
    pub start_x: isize,
    pub start_y: isize,
    pub current_x: isize,
    pub current_y: isize,
    pub frame: usize,
}

/// The glyph that a key writes: that of the character it types, if the
/// character has one.
pub open spec fn key_glyph(key: Key) -> Option<usize> {
    match spec_get_char(key) {
        Some(c) => spec_char_to_tile(c),
        None => None,
    }
}

/// A tile after a glyph was written on it: the glyph in the selection's
/// colours; rotation and flip stay.
pub open spec fn written(tile: Tile, selection: Selection, glyph: usize) -> Tile {
    Tile { index: glyph, bg: selection.bg, fg: selection.fg, ..tile }
}

impl TextCursorState {
    /// The cursor's coordinate.
    pub open spec fn at(&self) -> Coord {
        (self.current_x, self.current_y)
    }

    /// The cursor after the return key: at the start of its line, one row
    /// down; on the last row that there is it stays on that row.
    pub open spec fn next_line(self) -> TextCursorState {
        TextCursorState {
            current_x: self.start_x,
            current_y: if self.current_y < isize::MAX {
                (self.current_y + 1) as isize
            } else {
                self.current_y
            },
            ..self
        }
    }

    /// The cursor one column on; in the last column that there is it stays
    /// in that column.
    pub open spec fn advanced(self) -> TextCursorState {
        TextCursorState {
            current_x: if self.current_x < isize::MAX {
                (self.current_x + 1) as isize
            } else {
                self.current_x
            },
            ..self
        }
    }

    /// The cursor one frame on in its blink.
    pub open spec fn blinked(self) -> TextCursorState {
        TextCursorState { frame: ((self.frame + 1) % (BLINK_FRAMES as int)) as usize, ..self }
    }

    /// Whether the cursor shows: it does in the first half of its blink.
    pub open spec fn spec_visible(&self) -> bool {
        self.frame < BLINK_FRAMES / 2
    }

    /// Takes the blink one frame on and returns whether the cursor shows.
    pub fn update(&mut self) -> (visible: bool)
        ensures
            *final(self) == old(self).blinked(),
            visible == final(self).spec_visible(),
    {
        self.frame = (self.frame % BLINK_FRAMES + 1) % BLINK_FRAMES;
        self.frame < BLINK_FRAMES / 2
    }
}

/// The cursor that a click sets: at the cell clicked on, if the text tool is
/// selected and the click was on a cell.
pub open spec fn cursor_at(tool: SelectedTool, clicked: Clicked) -> Option<TextCursorState> {
    match clicked.0 {
        ButtonId::Grid(x, y) => if tool.0 is Text {
            Some(TextCursorState { start_x: x, start_y: y, current_x: x, current_y: y, frame: 0 })
        } else {
            None
        },
        _ => None,
    }
}

/// The cursor that a click sets, if it sets one.
pub fn on_click(tool: &SelectedTool, clicked: &Clicked) -> (cursor: Option<TextCursorState>)
    ensures
        cursor == cursor_at(*tool, *clicked),
{
    match tool.0 {
        crate::tools::Tools::Text => {},
        _ => {
            return None;
        },
    }
    match clicked.0 {
        ButtonId::Grid(x, y) => Some(
            TextCursorState { start_x: x, start_y: y, current_x: x, current_y: y, frame: 0 },
        ),
        _ => None,
    }
}

/// Carries one key out. A key that writes a glyph writes it at the cursor,
/// in the selection's colours, and moves the cursor one column on; where the
/// grid has no cell at the cursor nothing happens. The space bar writes
/// nothing and moves the cursor one column on. The return key starts the
/// next line. Every other key does nothing. Returns the coordinate of the
/// cell that was written.
pub fn on_type(state: &mut TextCursorState, grid: &mut Grid, selection: &Selection, key: &Key) -> (
    changed: Option<Coord>
)
    requires
        old(grid).wf(),
    ensures
        final(grid).wf(),
        final(grid).same_rect(old(grid)),
        final(grid).spec_resized() == old(grid).spec_resized(),
        final(grid).spec_limit() == old(grid).spec_limit(),
        final(grid).live() == old(grid).live(),
        changed is Some <==> key_glyph(*key) is Some && old(grid).cell_at(old(state).at()) is Some,
        changed is Some ==> {
            let at = old(state).at();
            &&& changed->0 == at
            &&& *final(state) == old(state).advanced()
            &&& final(grid).cells() == old(grid).cells().insert(
                at,
                (
                    written(old(grid).cells()[at].0, *selection, key_glyph(*key)->0),
                    old(grid).cells()[at].1,
                ),
            )
        },
        changed is None ==> final(grid).cells() == old(grid).cells() && *final(state) == (if *key
            == Key::Return {
            old(state).next_line()
        } else if *key == Key::Space {
            old(state).advanced()
        } else {
            *old(state)
        }),
{
    match get_char(key) {
        Some(c) => {
            let glyph = match char_to_tile(c) {
                Some(glyph) => glyph,
                None => {
                    match key {
                        Key::Space => {
                            if state.current_x < isize::MAX {
                                state.current_x = state.current_x + 1;
                            }
                        },
                        _ => {},
                    }
                    return None;
                },
            };
            let (x, y) = (state.current_x, state.current_y);
            let tile = match grid.get(x, y) {
                Some(tile) => *tile,
                None => {
                    return None;
                },
            };
            let mut next = tile;
            next.index = glyph;
            next.bg = selection.bg;
            next.fg = selection.fg;
            grid.set_tile(x, y, next);
            state.current_x = x + 1;
            Some((x, y))
        },
        None => {
            match key {
                Key::Return => {
                    state.current_x = state.start_x;
                    if state.current_y < isize::MAX {
                        state.current_y = state.current_y + 1;
                    }
                },
                _ => {},
            }
            None
        },
    }
}

} // verus!
