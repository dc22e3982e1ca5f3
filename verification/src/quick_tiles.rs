//! The selection, what paints with it, and the strip of quick tiles that
//! changes it.
use vstd::prelude::*;

use crate::mouse::{ButtonId, Clicked};
use crate::toolbar::SelectedTool;
use crate::util::misc::{DEFAULT_TILE, QUICK_TILES_PER_ROW, QUICK_TILES_ROWS, TILESET_COUNT};
use crate::util::size::TILE;
use crate::util::Palette;

verus! {

/// The notification that a glyph was selected.
#[derive(Clone, Copy, Debug)]
pub struct SelectTile(pub usize);

/// The notification that a colour was selected; the flag tells whether as
/// background.
#[derive(Clone, Copy, Debug)]
pub struct SelectColor(pub Palette, pub bool);

/// What the paint tools draw with.
#[derive(Clone, Copy, Debug)]
pub struct Selection {
    pub index: usize,
    pub bg: Palette,
    pub fg: Palette,
    pub flip: bool,
    pub rotation: u8,
}

/// A slot of the quick-tile strip and the glyph it offers now.
#[derive(Clone, Copy, Debug)]
pub struct QuickTileId {
    pub index: usize,
    pub tile: usize,
}

/// Number of slots of the quick-tile strip.
pub const QUICK_TILES: usize = QUICK_TILES_PER_ROW * QUICK_TILES_ROWS;

impl Selection {
    /// The selection at the start: the default glyph, upright, in colour A
    /// on colour E.
    pub open spec fn spec_default() -> Selection {
        Selection { index: DEFAULT_TILE, bg: Palette::E, fg: Palette::A, flip: false, rotation: 0 }
    }

    /// The selection with the flip toggled.
    pub open spec fn flipped(self) -> Selection {
        Selection { flip: !self.flip, ..self }
    }

    /// The selection turned by one more quarter; four quarters make none.
    pub open spec fn turned(self) -> Selection {
        Selection { rotation: ((self.rotation + 1) % 4) as u8, ..self }
    }

    /// Toggles the flip.
    pub fn toggle_flip(&mut self)
        ensures
            *final(self) == old(self).flipped(),
    {
        self.flip = !self.flip;
    }

    /// Turns the glyph by one more quarter.
    pub fn rotate(&mut self)
        ensures
            *final(self) == old(self).turned(),
    {
        self.rotation = ((self.rotation as u16 + 1) % 4) as u8;
    }
}

impl Default for Selection {
    fn default() -> (selection: Selection)
        ensures
            selection == Selection::spec_default(),
    {
        Selection { index: DEFAULT_TILE, bg: Palette::E, fg: Palette::A, flip: false, rotation: 0 }
    }
}

/// The quick-tile strip at the start: slot `i` offers glyph `i`.
pub fn setup() -> (tiles: Vec<QuickTileId>)
    ensures
        tiles@.len() == QUICK_TILES_PER_ROW * QUICK_TILES_ROWS,
        forall|i: int|
            0 <= i < tiles@.len() ==> #[trigger] tiles@[i] == (QuickTileId {
                index: i as usize,
                tile: i as usize,
            }),
{
    let mut tiles: Vec<QuickTileId> = Vec::new();
    let mut i: usize = 0;
    while i < QUICK_TILES
        invariant
            0 <= i <= QUICK_TILES,
            QUICK_TILES == QUICK_TILES_PER_ROW * QUICK_TILES_ROWS,
            tiles@.len() == i,
            forall|k: int|
                0 <= k < i ==> #[trigger] tiles@[k] == (QuickTileId {
                    index: k as usize,
                    tile: k as usize,
                }),
        decreases QUICK_TILES - i,
    {
        tiles.push(QuickTileId { index: i, tile: i });
        i = i + 1;
    }
    tiles
}

/// The first slot of the strip with the given number, if there is one.
pub open spec fn find_slot(tiles: Seq<QuickTileId>, n: usize) -> Option<QuickTileId>
    decreases tiles.len(),
{
    if tiles.len() == 0 {
        None
    } else if tiles[0].index == n {
        Some(tiles[0])
    } else {
        find_slot(tiles.drop_first(), n)
    }
}

/// The selection after a click: a click on a quick tile selects the glyph
/// that its slot offers; a click on a colour selects it as foreground, a
/// right click as background; any other click leaves the selection alone.
pub open spec fn selection_after(
    selection: Selection,
    tiles: Seq<QuickTileId>,
    clicked: Clicked,
) -> Selection {
    match clicked.0 {
        ButtonId::QuickTile(n) => match find_slot(tiles, n) {
            Some(slot) => Selection { index: slot.tile, ..selection },
            None => selection,
        },
        ButtonId::QuickColor(color) => if clicked.1 {
            Selection { bg: color, ..selection }
        } else {
            Selection { fg: color, ..selection }
        },
        _ => selection,
    }
}

/// What a click on the strip or the palette announces.
#[derive(Clone, Copy, Debug)]
pub enum Selected {
    Tile(SelectTile),
    Color(SelectColor),
}

/// What a click announces: the glyph or the colour that it selected.
pub open spec fn announced(tiles: Seq<QuickTileId>, clicked: Clicked) -> Option<Selected> {
    match clicked.0 {
        ButtonId::QuickTile(n) => match find_slot(tiles, n) {
            Some(slot) => Some(Selected::Tile(SelectTile(slot.tile))),
            None => None,
        },
        ButtonId::QuickColor(color) => Some(Selected::Color(SelectColor(color, clicked.1))),
        _ => None,
    }
}

fn find(tiles: &Vec<QuickTileId>, n: usize) -> (slot: Option<QuickTileId>)
    ensures
        slot == find_slot(tiles@, n),
{
    let mut i: usize = 0;
    assert(tiles@.skip(0) =~= tiles@);
    while i < tiles.len()
        invariant
            0 <= i <= tiles@.len(),
            find_slot(tiles@, n) == find_slot(tiles@.skip(i as int), n),
        decreases tiles@.len() - i,
    {
        if tiles[i].index == n {
            return Some(tiles[i]);
        }
        assert(tiles@.skip(i as int).drop_first() =~= tiles@.skip(i as int + 1));
        i = i + 1;
    }
    None
}

/// Carries a click out on the selection and returns what it announces.
pub fn on_click(tiles: &Vec<QuickTileId>, clicked: &Clicked, selection: &mut Selection) -> (sent:
    Option<Selected>)
    ensures
        *final(selection) == selection_after(*old(selection), tiles@, *clicked),
        sent == announced(tiles@, *clicked),
{
    match clicked.0 {
        ButtonId::QuickTile(n) => match find(tiles, n) {
            Some(slot) => {
                selection.index = slot.tile;
                Some(Selected::Tile(SelectTile(slot.tile)))
            },
            None => None,
        },
        ButtonId::QuickColor(color) => {
            if clicked.1 {
                selection.bg = color;
            } else {
                selection.fg = color;
            }
            Some(Selected::Color(SelectColor(color, clicked.1)))
        },
        _ => None,
    }
}

/// The glyph that a slot offers after the strip moved one page up or down
/// the tileset; behind the last glyph the first follows.
pub open spec fn paged(tile: int, up: bool) -> int {
    if up {
        (tile + TILESET_COUNT - QUICK_TILES) % (TILESET_COUNT as int)
    } else {
        (tile + QUICK_TILES) % (TILESET_COUNT as int)
    }
}

/// Whether the strip pages at a frame: an arrow key went down, up or down,
/// and the resize tool, which reads the arrow keys itself, is not selected.
pub open spec fn pages(tool: SelectedTool, up: bool, down: bool) -> bool {
    !(tool.0 is Resize) && (up || down)
}

/// Moves the strip one page through the tileset: up if `up` is set, else
/// down if `down` is. With neither, and while the resize tool is selected,
/// nothing changes. Returns whether the strip changed.
pub fn update_range(tool: &SelectedTool, up: bool, down: bool, tiles: &mut Vec<QuickTileId>) -> (
    changed: bool
)
    ensures
        changed == pages(*tool, up, down),
        final(tiles)@.len() == old(tiles)@.len(),
        forall|i: int|
            0 <= i < old(tiles)@.len() ==> #[trigger] final(tiles)@[i] == (if changed {
                QuickTileId {
                    index: old(tiles)@[i].index,
                    tile: paged(old(tiles)@[i].tile as int, up) as usize,
                }
            } else {
                old(tiles)@[i]
            }),
        changed ==> forall|i: int|
            0 <= i < final(tiles)@.len() ==> (#[trigger] final(tiles)@[i]).tile < TILESET_COUNT,
{
    match tool.0 {
        crate::tools::Tools::Resize => {
            return false;
        },
        _ => {},
    }
    if !up && !down {
        return false;
    }
    let mut i: usize = 0;
    while i < tiles.len()
        invariant
            0 <= i <= tiles@.len(),
            tiles@.len() == old(tiles)@.len(),
            forall|k: int|
                0 <= k < i ==> #[trigger] tiles@[k] == (QuickTileId {
                    index: old(tiles)@[k].index,
                    tile: paged(old(tiles)@[k].tile as int, up) as usize,
                }),
            forall|k: int| i <= k < tiles@.len() ==> #[trigger] tiles@[k] == old(tiles)@[k],
        decreases tiles@.len() - i,
    {
        let slot = tiles[i];
        let within = slot.tile % TILESET_COUNT;
        let tile = if up {
            (within + TILESET_COUNT - QUICK_TILES) % TILESET_COUNT
        } else {
            (within + QUICK_TILES) % TILESET_COUNT
        };
        assert(tile == paged(slot.tile as int, up));
        tiles.set(i, QuickTileId { index: slot.index, tile });
        i = i + 1;
    }
    true
}

/// Paging keeps the glyphs within the tileset, and a page down undoes a page
/// up, as a page up undoes a page down.
pub proof fn lemma_page_back(tile: int)
    requires
        0 <= tile < TILESET_COUNT,
    ensures
        0 <= paged(tile, true) < TILESET_COUNT,
        0 <= paged(tile, false) < TILESET_COUNT,
        paged(paged(tile, true), false) == tile,
        paged(paged(tile, false), true) == tile,
{
}

/// Left edge of the quick-tile strip on screen.
pub const STRIP_X: i128 = 56;

/// Left edge of the palette on screen.
pub const PALETTE_X: i128 = 8;

/// Bottom edge of the top row of the palette on screen.
pub const PALETTE_Y: i128 = 72;

/// Place on screen of slot `i` of the strip: the slots stand in rows of
/// `QUICK_TILES_PER_ROW`, one tile apart, the first row on top.
pub open spec fn spec_slot_place(i: int) -> (int, int) {
    (
        STRIP_X + (i % (QUICK_TILES_PER_ROW as int)) * TILE,
        TILE * QUICK_TILES_ROWS - (i / (QUICK_TILES_PER_ROW as int)) * TILE,
    )
}

/// Place on screen of slot `i` of the strip.
pub fn slot_place(i: usize) -> (place: (i128, i128))
    ensures
        place.0 == spec_slot_place(i as int).0,
        place.1 == spec_slot_place(i as int).1,
{
    let column = (i % QUICK_TILES_PER_ROW) as i128;
    let row = (i / QUICK_TILES_PER_ROW) as i128;
    (STRIP_X + column * TILE, TILE * (QUICK_TILES_ROWS as i128) - row * TILE)
}

/// Place on screen of the button of palette entry `i`: the buttons stand
/// two to a row, one tile apart, the first row on top.
pub open spec fn spec_color_place(i: int) -> (int, int) {
    (PALETTE_X + TILE * (i % 2), PALETTE_Y - TILE * (i / 2))
}

/// Place on screen of the button of palette entry `i`.
pub fn color_place(i: usize) -> (place: (i128, i128))
    ensures
        place.0 == spec_color_place(i as int).0,
        place.1 == spec_color_place(i as int).1,
{
    (PALETTE_X + TILE * ((i % 2) as i128), PALETTE_Y - TILE * ((i / 2) as i128))
}

} // verus!
