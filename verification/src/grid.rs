//! The grid store: the addressable rectangle of tiles, the mapping from tile
//! coordinates to screen positions, and the reconciliation of the cells with
//! the rectangle after a resize.
use vstd::prelude::*;

use crate::arena::Arena;
use crate::mouse::{ButtonId, Clickable};
use crate::quick_tiles::Selection;
use crate::tile_map::{Cell, Coord, TileMap};
use crate::toolbar::SelectedTool;
use crate::util::misc::TILESET_COUNT;
use crate::util::size::{BOTTOM_MARGIN, HEIGHT, LEFT_MARGIN, TILE, WIDTH};
use crate::util::Palette;

verus! {

/// What one cell of the grid shows.
#[derive(Clone, Copy, PartialEq, Eq, Debug)]
pub struct Tile {
    pub bg: Palette,
    pub fg: Palette,
    pub index: usize,
    pub flip: (bool, bool),
    pub rotation: u8,
}

impl Tile {
    /// The tile of a cell that nothing was drawn on: glyph 0 in black on a
    /// transparent ground, neither flipped nor turned.
    pub open spec fn spec_default() -> Tile {
        Tile {
            bg: Palette::Transparent,
            fg: Palette::Black,
            index: 0,
            flip: (false, false),
            rotation: 0,
        }
    }
}

/// Number of quarter turns that make a full turn.
pub const TURNS: u8 = 4;

impl Tile {
    /// Whether the tile's glyph is one of the tileset and its rotation less
    /// than a full turn: what the clipboard text can hold.
    pub open spec fn spec_in_range(&self) -> bool {
        self.index < TILESET_COUNT && self.rotation < TURNS
    }

    /// Whether the tile's glyph is one of the tileset and its rotation less
    /// than a full turn.
    #[verifier::when_used_as_spec(spec_in_range)]
    pub fn in_range(&self) -> (within: bool)
        ensures
            within == self.spec_in_range(),
    {
        self.index < TILESET_COUNT && self.rotation < TURNS
    }
}

impl Default for Tile {
    fn default() -> (tile: Tile)
        ensures
            tile == Tile::spec_default(),
    {
        Tile {
            bg: Palette::Transparent,
            fg: Palette::Black,
            index: 0,
            flip: (false, false),
            rotation: 0,
        }
    }
}

/// The zoom factor, counted in quarters: 6 quarters are a zoom of 1.5. A
/// zoom is positive.
///
/// With the zoom in quarters a tile's side is a whole, even number of
/// logical pixels, so every position below is exact.
#[derive(Clone, Copy, PartialEq, Eq, Structural, Debug)]
pub struct Zoom {
    quarters: u32,
}

impl Zoom {
    #[verifier::type_invariant]
    spec fn positive(self) -> bool {
        self.quarters > 0
    }

    /// The zoom in quarters.
    pub closed spec fn spec_quarters(&self) -> u32 {
        self.quarters
    }

    /// Side of a tile on screen, in logical pixels: `TILE` times the zoom.
    pub open spec fn spec_tile_side(self) -> int {
        TILE * self.spec_quarters() / 4
    }

    /// The zoom of so many quarters; none of no quarters.
    pub fn new(quarters: u32) -> (zoom: Option<Zoom>)
        ensures
            zoom is Some <==> quarters > 0,
            zoom is Some ==> zoom->0.spec_quarters() == quarters,
    {
        if quarters == 0 {
            None
        } else {
            Some(Zoom { quarters })
        }
    }

    /// The zoom in quarters.
    #[verifier::when_used_as_spec(spec_quarters)]
    pub fn quarters(&self) -> (quarters: u32)
        ensures
            quarters == self.spec_quarters(),
            quarters > 0,
    {
        proof {
            use_type_invariant(self);
        }
        self.quarters
    }

    /// Side of a tile on screen, in logical pixels.
    pub fn tile_side(&self) -> (side: i128)
        ensures
            side == self.spec_tile_side(),
            side == 2 * self.spec_quarters(),
            side > 0,
    {
        2 * (self.quarters() as i128)
    }
}

impl Default for Zoom {
    fn default() -> (zoom: Zoom)
        ensures
            zoom.spec_quarters() == 6,
    {
        Zoom { quarters: 6 }
    }
}

/// Horizontal screen position of the left edge of column `x`, for a grid of
/// `w` columns that starts at column `x0`: the grid is centred in what the
/// left margin leaves of the width.
pub open spec fn spec_grid_x(x: int, x0: int, w: int, zoom: Zoom) -> int {
    LEFT_MARGIN + (WIDTH - LEFT_MARGIN - zoom.spec_tile_side() * w) / 2 + zoom.spec_tile_side() * (x
        - x0)
}

/// Vertical screen position of the bottom edge of row `y`, for a grid of `h`
/// rows that starts at row `y0`: the grid is centred in what the bottom
/// margin leaves of the height, and row `y0` is the topmost.
pub open spec fn spec_grid_y(y: int, y0: int, h: int, zoom: Zoom) -> int {
    HEIGHT - (HEIGHT - BOTTOM_MARGIN - zoom.spec_tile_side() * h) / 2 - zoom.spec_tile_side() * (y
        - y0 + 1)
}

proof fn lemma_product_bound(a: int, b: int, ma: int, mb: int)
    requires
        -ma <= a <= ma,
        -mb <= b <= mb,
    ensures
        -(ma * mb) <= a * b <= ma * mb,
{
    assert(-(ma * mb) <= a * b <= ma * mb) by (nonlinear_arith)
        requires
            -ma <= a <= ma,
            -mb <= b <= mb,
    ;
}

/// Screen position of the left edge of column `x`.
pub fn grid_x(x: isize, x0: isize, w: usize, zoom: Zoom) -> (sx: i128)
    ensures
        sx == spec_grid_x(x as int, x0 as int, w as int, zoom),
{
    let side: i128 = zoom.tile_side();
    let q: i128 = zoom.quarters() as i128;
    let dx: i128 = x as i128 - x0 as i128;
    proof {
        lemma_product_bound(q as int, w as int, 0x1_0000_0000, 0x1_0000_0000_0000_0000);
        lemma_product_bound(side as int, dx as int, 0x2_0000_0000, 0x1_0000_0000_0000_0000);
        assert((WIDTH - LEFT_MARGIN - side * w) / 2 == (WIDTH - LEFT_MARGIN) / 2 - q * w) by {
            assert(side * w == 2 * (q * w)) by (nonlinear_arith)
                requires
                    side == 2 * q,
            ;
        }
    }
    LEFT_MARGIN + (WIDTH - LEFT_MARGIN) / 2 - q * (w as i128) + side * dx
}

/// Screen position of the bottom edge of row `y`.
pub fn grid_y(y: isize, y0: isize, h: usize, zoom: Zoom) -> (sy: i128)
    ensures
        sy == spec_grid_y(y as int, y0 as int, h as int, zoom),
{
    let side: i128 = zoom.tile_side();
    let q: i128 = zoom.quarters() as i128;
    let dy: i128 = y as i128 - y0 as i128 + 1;
    proof {
        lemma_product_bound(q as int, h as int, 0x1_0000_0000, 0x1_0000_0000_0000_0000);
        lemma_product_bound(side as int, dy as int, 0x2_0000_0000, 0x1_0000_0000_0000_0000);
        assert((HEIGHT - BOTTOM_MARGIN - side * h) / 2 == (HEIGHT - BOTTOM_MARGIN) / 2 - q * h) by {
            assert(side * h == 2 * (q * h)) by (nonlinear_arith)
                requires
                    side == 2 * q,
            ;
        }
    }
    HEIGHT - (HEIGHT - BOTTOM_MARGIN) / 2 + q * (h as i128) - side * dy
}

/// A cell that left the rectangle: what showed it is to be destroyed.
#[derive(Clone, Copy, Debug)]
pub struct Despawn {
    pub at: Coord,
    pub handle: usize,
}

/// A cell that stays: where on screen it stands now.
#[derive(Clone, Copy, Debug)]
pub struct Move {
    pub at: Coord,
    pub handle: usize,
    pub x: i128,
    pub y: i128,
}

/// A cell that appeared: something is to be made to show it, at the place
/// and with the clickable region given.
#[derive(Clone, Copy, Debug)]
pub struct Spawn {
    pub at: Coord,
    pub handle: usize,
    pub region: Clickable,
}

/// What one reconciliation did to the cells. The cells that left come first:
/// a handle that one of them returned may be the handle of a cell that
/// appeared.
#[derive(Debug)]
pub struct Reconciliation {
    pub despawned: Vec<Despawn>,
    pub moved: Vec<Move>,
    pub spawned: Vec<Spawn>,
}

/// Whether a handle is the handle of one of the cells.
pub open spec fn shown_in(cells: Map<Coord, Cell>, handle: usize) -> bool {
    exists|at: Coord| #[trigger] cells.dom().contains(at) && cells[at].1 == handle
}

proof fn lemma_shown_after_retile(cells: Map<Coord, Cell>, at: Coord, tile: Tile, handle: usize)
    requires
        cells.dom().contains(at),
        shown_in(cells, handle),
    ensures
        shown_in(cells.insert(at, (tile, cells[at].1)), handle),
{
    let by = choose|by: Coord| #[trigger] cells.dom().contains(by) && cells[by].1 == handle;
    let after = cells.insert(at, (tile, cells[at].1));
    assert(after.dom().contains(by) && after[by].1 == handle);
}

proof fn lemma_shown_after_remove(cells: Map<Coord, Cell>, at: Coord, handle: usize)
    requires
        cells.dom().contains(at),
        cells[at].1 != handle,
        shown_in(cells, handle),
    ensures
        shown_in(cells.remove(at), handle),
{
    let by = choose|by: Coord| #[trigger] cells.dom().contains(by) && cells[by].1 == handle;
    let after = cells.remove(at);
    assert(after.dom().contains(by) && after[by].1 == handle);
}

proof fn lemma_shown_after_insert(cells: Map<Coord, Cell>, at: Coord, cell: Cell, handle: usize)
    requires
        !cells.dom().contains(at),
        shown_in(cells, handle) || handle == cell.1,
    ensures
        shown_in(cells.insert(at, cell), handle),
{
    let after = cells.insert(at, cell);
    if handle == cell.1 {
        assert(after.dom().contains(at) && after[at].1 == handle);
    } else {
        let by = choose|by: Coord| #[trigger] cells.dom().contains(by) && cells[by].1 == handle;
        assert(after.dom().contains(by) && after[by].1 == handle);
    }
}

/// An edge of the grid's rectangle. Row `y0` is the top row.
#[derive(Clone, Copy, PartialEq, Eq, Structural, Debug)]
pub enum Edge {
    Left,
    Right,
    Top,
    Bottom,
}

/// A change of the rectangle that can be asked of a grid.
#[derive(Clone, Copy, Debug)]
pub enum Resize {
    /// One more column or row at an edge.
    Grow(Edge),
    /// One column or row less at an edge.
    Shrink(Edge),
    /// The same rectangle, moved by so many columns and rows.
    Shift(isize, isize),
}

/// The grid: a rectangle of tile coordinates and the cells that exist.
///
/// A change of the rectangle only records that it was asked for; the cells
/// follow at the next reconciliation. Between the two the cells are those of
/// the rectangle before, and `resized()` is true.
pub struct Grid {
    x0: isize,
    y0: isize,
    w: usize,
    h: usize,
    limit: usize,
    tiles: TileMap,
    handles: Arena,
    resized: bool,
}

impl Grid {
    /// Leftmost column of the rectangle.
    pub closed spec fn spec_x0(&self) -> isize {
        self.x0
    }

    /// Topmost row of the rectangle.
    pub closed spec fn spec_y0(&self) -> isize {
        self.y0
    }

    /// Number of columns.
    pub closed spec fn spec_w(&self) -> usize {
        self.w
    }

    /// Number of rows.
    pub closed spec fn spec_h(&self) -> usize {
        self.h
    }

    /// The width and height from which `grow` refuses.
    pub closed spec fn spec_limit(&self) -> usize {
        self.limit
    }

    /// Whether the rectangle changed since the cells were last reconciled.
    pub closed spec fn spec_resized(&self) -> bool {
        self.resized
    }

    /// The cells that exist, by coordinate.
    pub closed spec fn cells(&self) -> Map<Coord, Cell> {
        self.tiles@
    }

    /// The handles that are in use.
    pub closed spec fn live(&self) -> Set<usize> {
        self.handles.live()
    }

    /// Whether a coordinate lies in the rectangle.
    pub open spec fn in_rect(&self, at: Coord) -> bool {
        &&& self.spec_x0() <= at.0 < self.spec_x0() + self.spec_w()
        &&& self.spec_y0() <= at.1 < self.spec_y0() + self.spec_h()
    }

    /// The coordinates of the rectangle.
    pub open spec fn rect(&self) -> Set<Coord> {
        Set::new(|at: Coord| self.in_rect(at))
    }

    /// The rectangle is not empty and lies below the largest coordinate.
    pub open spec fn rect_fits(x0: int, y0: int, w: int, h: int) -> bool {
        &&& 1 <= w
        &&& 1 <= h
        &&& x0 + w <= isize::MAX
        &&& y0 + h <= isize::MAX
    }

    /// What holds of every grid: the rectangle fits, each cell has a handle
    /// of its own, the handles in use are those of the cells, and, unless a
    /// resize waits for the reconciler, the cells are exactly those of the
    /// rectangle.
    pub open spec fn wf(&self) -> bool {
        &&& Grid::rect_fits(
            self.spec_x0() as int,
            self.spec_y0() as int,
            self.spec_w() as int,
            self.spec_h() as int,
        )
        &&& self.arena_wf()
        &&& self.cells().dom().finite()
        &&& forall|at: Coord| #[trigger]
            self.cells().dom().contains(at) ==> self.live().contains(self.cells()[at].1)
        &&& forall|a: Coord, b: Coord|
            #![trigger self.cells()[a], self.cells()[b]]
            self.cells().dom().contains(a) && self.cells().dom().contains(b) && a != b
                ==> self.cells()[a].1 != self.cells()[b].1
        &&& forall|handle: usize| #[trigger]
            self.live().contains(handle) ==> shown_in(self.cells(), handle)
        &&& !self.spec_resized() ==> forall|at: Coord| #[trigger]
            self.cells().dom().contains(at) <==> self.in_rect(at)
    }



    /// The handle arena is well formed.
    pub closed spec fn arena_wf(&self) -> bool {
        self.handles.wf()
    }

    /// A grid with the given rectangle, no cells yet, and a resize waiting
    /// for the reconciler. `None` if the rectangle is empty or reaches past
    /// the largest coordinate.
    pub fn new(x0: isize, y0: isize, w: usize, h: usize, limit: usize) -> (grid: Option<Grid>)
        ensures
            grid is Some <==> Grid::rect_fits(x0 as int, y0 as int, w as int, h as int),
            grid is Some ==> {
                let g = grid->0;
                &&& g.wf()
                &&& g.spec_x0() == x0
                &&& g.spec_y0() == y0
                &&& g.spec_w() == w
                &&& g.spec_h() == h
                &&& g.spec_limit() == limit
                &&& g.spec_resized()
                &&& g.cells().dom() == Set::<Coord>::empty()
                &&& g.live() == Set::<usize>::empty()
            },
    {
        if w < 1 || h < 1 || x0 as i128 + w as i128 > isize::MAX as i128 || y0 as i128 + h as i128
            > isize::MAX as i128 {
            return None;
        }
        let grid = Grid {
            x0,
            y0,
            w,
            h,
            limit,
            tiles: TileMap::new(),
            handles: Arena::new(),
            resized: true,
        };
        Some(grid)
    }

    /// Leftmost column of the rectangle.
    #[verifier::when_used_as_spec(spec_x0)]
    pub fn x0(&self) -> (x0: isize)
        ensures
            x0 == self.spec_x0(),
    {
        self.x0
    }

    /// Topmost row of the rectangle.
    #[verifier::when_used_as_spec(spec_y0)]
    pub fn y0(&self) -> (y0: isize)
        ensures
            y0 == self.spec_y0(),
    {
        self.y0
    }

    /// Number of columns.
    #[verifier::when_used_as_spec(spec_w)]
    pub fn w(&self) -> (w: usize)
        ensures
            w == self.spec_w(),
    {
        self.w
    }

    /// Number of rows.
    #[verifier::when_used_as_spec(spec_h)]
    pub fn h(&self) -> (h: usize)
        ensures
            h == self.spec_h(),
    {
        self.h
    }

    /// The width and height from which `grow` refuses.
    #[verifier::when_used_as_spec(spec_limit)]
    pub fn limit(&self) -> (limit: usize)
        ensures
            limit == self.spec_limit(),
    {
        self.limit
    }

    /// Whether a resize waits for the reconciler.
    #[verifier::when_used_as_spec(spec_resized)]
    pub fn resized(&self) -> (resized: bool)
        ensures
            resized == self.spec_resized(),
    {
        self.resized
    }

    /// Whether two grids have the same cells, the same handles in use and
    /// the same limit.
    pub open spec fn same_cells(&self, other: &Grid) -> bool {
        &&& self.cells() == other.cells()
        &&& self.live() == other.live()
        &&& self.spec_limit() == other.spec_limit()
    }

    /// Whether two grids have the same rectangle.
    pub open spec fn same_rect(&self, other: &Grid) -> bool {
        &&& self.spec_x0() == other.spec_x0()
        &&& self.spec_y0() == other.spec_y0()
        &&& self.spec_w() == other.spec_w()
        &&& self.spec_h() == other.spec_h()
    }

    /// Whether the rectangle is `(x0, y0, w, h)`.
    pub open spec fn rect_is(&self, x0: int, y0: int, w: int, h: int) -> bool {
        &&& self.spec_x0() == x0
        &&& self.spec_y0() == y0
        &&& self.spec_w() == w
        &&& self.spec_h() == h
    }

    /// The rectangle: leftmost column, topmost row, width, height.
    pub open spec fn rect4(&self) -> (int, int, int, int) {
        (self.spec_x0() as int, self.spec_y0() as int, self.spec_w() as int, self.spec_h() as int)
    }

    /// The rectangle with one more column or row at an edge.
    pub open spec fn grown(&self, edge: Edge) -> (int, int, int, int) {
        let (x0, y0, w, h) = self.rect4();
        match edge {
            Edge::Left => (x0 - 1, y0, w + 1, h),
            Edge::Right => (x0, y0, w + 1, h),
            Edge::Top => (x0, y0 - 1, w, h + 1),
            Edge::Bottom => (x0, y0, w, h + 1),
        }
    }

    /// The rectangle with one column or row less at an edge.
    pub open spec fn shrunk(&self, edge: Edge) -> (int, int, int, int) {
        let (x0, y0, w, h) = self.rect4();
        match edge {
            Edge::Left => (x0 + 1, y0, w - 1, h),
            Edge::Right => (x0, y0, w - 1, h),
            Edge::Top => (x0, y0 + 1, w, h - 1),
            Edge::Bottom => (x0, y0, w, h - 1),
        }
    }

    /// Whether the grid may grow at an edge: the dimension is below the
    /// limit, and the new row or column has a coordinate.
    pub open spec fn can_grow(&self, edge: Edge) -> bool {
        match edge {
            Edge::Left => self.spec_w() < self.spec_limit() && self.spec_x0() > isize::MIN,
            Edge::Right => self.spec_w() < self.spec_limit() && self.spec_x0() + self.spec_w() + 1
                <= isize::MAX,
            Edge::Top => self.spec_h() < self.spec_limit() && self.spec_y0() > isize::MIN,
            Edge::Bottom => self.spec_h() < self.spec_limit() && self.spec_y0() + self.spec_h() + 1
                <= isize::MAX,
        }
    }

    /// Whether the grid may shrink at an edge: the dimension is above 1.
    pub open spec fn can_shrink(&self, edge: Edge) -> bool {
        match edge {
            Edge::Left | Edge::Right => self.spec_w() > 1,
            Edge::Top | Edge::Bottom => self.spec_h() > 1,
        }
    }

    /// Whether the rectangle may move by `(dx, dy)`: it still lies within the
    /// coordinates that exist.
    pub open spec fn can_shift(&self, dx: int, dy: int) -> bool {
        &&& isize::MIN <= self.spec_x0() + dx
        &&& isize::MIN <= self.spec_y0() + dy
        &&& self.spec_x0() + dx + self.spec_w() <= isize::MAX
        &&& self.spec_y0() + dy + self.spec_h() <= isize::MAX
    }

    /// Adds one column or row at an edge, unless `can_grow` is false: then
    /// nothing changes. The cells follow at the next reconciliation.
    pub fn grow(&mut self, edge: Edge) -> (accepted: bool)
        requires
            old(self).wf(),
        ensures
            final(self).wf(),
            final(self).same_cells(old(self)),
            accepted == old(self).can_grow(edge),
            !accepted ==> final(self).same_rect(old(self)) && final(self).spec_resized() == old(self).spec_resized(),
            accepted ==> final(self).spec_resized() && final(self).rect4() == old(self).grown(edge),
    {
        match edge {
            Edge::Left => {
                if self.w >= self.limit || self.x0 == isize::MIN {
                    return false;
                }
                self.x0 = self.x0 - 1;
                self.w = self.w + 1;
            },
            Edge::Right => {
                if self.w >= self.limit || self.x0 as i128 + self.w as i128 + 1
                    > isize::MAX as i128 {
                    return false;
                }
                self.w = self.w + 1;
            },
            Edge::Top => {
                if self.h >= self.limit || self.y0 == isize::MIN {
                    return false;
                }
                self.y0 = self.y0 - 1;
                self.h = self.h + 1;
            },
            Edge::Bottom => {
                if self.h >= self.limit || self.y0 as i128 + self.h as i128 + 1
                    > isize::MAX as i128 {
                    return false;
                }
                self.h = self.h + 1;
            },
        }
        self.resized = true;
        assert(self.cells() == old(self).cells() && self.live() == old(self).live());
        true
    }

    /// Takes one column or row away at an edge, unless that dimension is 1
    /// already: then nothing changes. The cells follow at the next
    /// reconciliation.
    pub fn shrink(&mut self, edge: Edge) -> (accepted: bool)
        requires
            old(self).wf(),
        ensures
            final(self).wf(),
            final(self).same_cells(old(self)),
            accepted == old(self).can_shrink(edge),
            !accepted ==> final(self).same_rect(old(self)) && final(self).spec_resized() == old(self).spec_resized(),
            accepted ==> final(self).spec_resized() && final(self).rect4() == old(self).shrunk(edge),
    {
        match edge {
            Edge::Left => {
                if self.w <= 1 {
                    return false;
                }
                self.x0 = self.x0 + 1;
                self.w = self.w - 1;
            },
            Edge::Right => {
                if self.w <= 1 {
                    return false;
                }
                self.w = self.w - 1;
            },
            Edge::Top => {
                if self.h <= 1 {
                    return false;
                }
                self.y0 = self.y0 + 1;
                self.h = self.h - 1;
            },
            Edge::Bottom => {
                if self.h <= 1 {
                    return false;
                }
                self.h = self.h - 1;
            },
        }
        self.resized = true;
        assert(self.cells() == old(self).cells() && self.live() == old(self).live());
        true
    }

    /// Moves the rectangle by `(dx, dy)` without changing its size, unless
    /// it would leave the coordinates that exist: then nothing changes. The
    /// cells follow at the next reconciliation.
    pub fn set_origin_delta(&mut self, dx: isize, dy: isize) -> (accepted: bool)
        requires
            old(self).wf(),
        ensures
            final(self).wf(),
            final(self).same_cells(old(self)),
            accepted == old(self).can_shift(dx as int, dy as int),
            !accepted ==> final(self).same_rect(old(self)) && final(self).spec_resized() == old(self).spec_resized(),
            accepted ==> final(self).spec_resized() && final(self).rect_is(
                old(self).spec_x0() + dx,
                old(self).spec_y0() + dy,
                old(self).spec_w() as int,
                old(self).spec_h() as int,
            ),
    {
        let x: i128 = self.x0 as i128 + dx as i128;
        let y: i128 = self.y0 as i128 + dy as i128;
        if x < isize::MIN as i128 || y < isize::MIN as i128 || x + self.w as i128
            > isize::MAX as i128 || y + self.h as i128 > isize::MAX as i128 {
            return false;
        }
        self.x0 = x as isize;
        self.y0 = y as isize;
        self.resized = true;
        assert(self.cells() == old(self).cells() && self.live() == old(self).live());
        true
    }

    /// Whether the grid takes a change of its rectangle.
    pub open spec fn accepts(&self, change: Resize) -> bool {
        match change {
            Resize::Grow(edge) => self.can_grow(edge),
            Resize::Shrink(edge) => self.can_shrink(edge),
            Resize::Shift(dx, dy) => self.can_shift(dx as int, dy as int),
        }
    }

    /// The rectangle after a change was asked for: changed if the grid takes
    /// the change, else as it was.
    pub open spec fn asked(&self, change: Resize) -> (int, int, int, int) {
        if !self.accepts(change) {
            self.rect4()
        } else {
            match change {
                Resize::Grow(edge) => self.grown(edge),
                Resize::Shrink(edge) => self.shrunk(edge),
                Resize::Shift(dx, dy) => (
                    self.spec_x0() + dx,
                    self.spec_y0() + dy,
                    self.spec_w() as int,
                    self.spec_h() as int,
                ),
            }
        }
    }

    /// Asks for a change of the rectangle. The grid takes it or leaves its
    /// rectangle as it is; the cells follow at the next reconciliation.
    pub fn resize(&mut self, change: Resize) -> (accepted: bool)
        requires
            old(self).wf(),
        ensures
            final(self).wf(),
            final(self).same_cells(old(self)),
            accepted == old(self).accepts(change),
            final(self).rect4() == old(self).asked(change),
            final(self).spec_resized() == (old(self).spec_resized() || accepted),
    {
        match change {
            Resize::Grow(edge) => self.grow(edge),
            Resize::Shrink(edge) => self.shrink(edge),
            Resize::Shift(dx, dy) => self.set_origin_delta(dx, dy),
        }
    }

    /// The tile at a coordinate: `None` outside the rectangle, and where the
    /// rectangle has no cell yet.
    pub fn get(&self, x: isize, y: isize) -> (tile: Option<&Tile>)
        requires
            self.wf(),
        ensures
            tile is Some <==> self.in_rect((x, y)) && self.cells().dom().contains((x, y)),
            tile is Some ==> *tile->0 == self.cells()[(x, y)].0,
    {
        if !self.contains(x, y) {
            return None;
        }
        match self.tiles.get((x, y)) {
            Some(cell) => Some(&cell.0),
            None => None,
        }
    }

    /// The handle of what shows the cell at a coordinate: `None` outside the
    /// rectangle, and where the rectangle has no cell yet.
    pub fn handle(&self, x: isize, y: isize) -> (handle: Option<usize>)
        requires
            self.wf(),
        ensures
            handle is Some <==> self.in_rect((x, y)) && self.cells().dom().contains((x, y)),
            handle is Some ==> handle->0 == self.cells()[(x, y)].1,
    {
        if !self.contains(x, y) {
            return None;
        }
        match self.tiles.get((x, y)) {
            Some(cell) => Some(cell.1),
            None => None,
        }
    }

    /// The tile at a coordinate, to be changed in place: `None` outside the
    /// rectangle, and where the rectangle has no cell yet. What the caller
    /// leaves in the tile is what the cell then shows; nothing else changes.
    pub fn get_mut(&mut self, x: isize, y: isize) -> (tile: Option<&mut Tile>)
        requires
            old(self).wf(),
        ensures
            final(self).wf(),
            final(self).same_rect(old(self)),
            final(self).spec_resized() == old(self).spec_resized(),
            final(self).spec_limit() == old(self).spec_limit(),
            final(self).live() == old(self).live(),
            tile is Some <==> old(self).in_rect((x, y)) && old(self).cells().dom().contains((x, y)),
            tile is Some ==> *tile->0 == old(self).cells()[(x, y)].0,
            tile is Some ==> final(self).cells() == old(self).cells().insert(
                (x, y),
                (*final(tile->0), old(self).cells()[(x, y)].1),
            ),
            tile is None ==> final(self).cells() == old(self).cells(),
    {
        proof {
            let cells = self.cells();
            assert forall|handle: usize| self.live().contains(handle) implies #[trigger] shown_in(
                cells,
                handle,
            ) by {}
            if cells.dom().contains((x, y)) {
                assert forall|tile: Tile, handle: usize|
                    self.live().contains(handle) implies #[trigger] shown_in(
                    cells.insert((x, y), (tile, cells[(x, y)].1)),
                    handle,
                ) by {
                    lemma_shown_after_retile(cells, (x, y), tile, handle);
                }
            }
        }
        if !self.contains(x, y) {
            return None;
        }
        match self.tiles.get_mut((x, y)) {
            Some(cell) => Some(&mut cell.0),
            None => None,
        }
    }

    /// Puts a tile at a coordinate. Outside the rectangle, and where the
    /// rectangle has no cell yet, nothing changes.
    pub fn set_tile(&mut self, x: isize, y: isize, tile: Tile) -> (written: bool)
        requires
            old(self).wf(),
        ensures
            final(self).wf(),
            final(self).same_rect(old(self)),
            final(self).spec_resized() == old(self).spec_resized(),
            final(self).spec_limit() == old(self).spec_limit(),
            final(self).live() == old(self).live(),
            written == (old(self).in_rect((x, y)) && old(self).cells().dom().contains((x, y))),
            written ==> final(self).cells() == old(self).cells().insert(
                (x, y),
                (tile, old(self).cells()[(x, y)].1),
            ),
            !written ==> final(self).cells() == old(self).cells(),
    {
        if !self.contains(x, y) {
            return false;
        }
        let handle = match self.tiles.get((x, y)) {
            Some(cell) => cell.1,
            None => {
                return false;
            },
        };
        self.tiles.insert((x, y), (tile, handle));
        proof {
            assert(self.cells().dom() =~= old(self).cells().dom());
            assert forall|live: usize| #[trigger] self.live().contains(live) implies shown_in(
                self.cells(),
                live,
            ) by {
                lemma_shown_after_retile(old(self).cells(), (x, y), tile, live);
            }
        }
        true
    }

    /// Whether the coordinate lies in the rectangle.
    pub fn contains(&self, x: isize, y: isize) -> (inside: bool)
        requires
            self.wf(),
        ensures
            inside == self.in_rect((x, y)),
    {
        self.x0 <= x && (x as i128) < self.x0 as i128 + self.w as i128 && self.y0 <= y && (
        y as i128) < self.y0 as i128 + self.h as i128
    }

    /// Horizontal screen position of the cell at a coordinate.
    pub open spec fn screen_x(&self, at: Coord, zoom: Zoom) -> int {
        spec_grid_x(at.0 as int, self.spec_x0() as int, self.spec_w() as int, zoom)
    }

    /// Vertical screen position of the cell at a coordinate.
    pub open spec fn screen_y(&self, at: Coord, zoom: Zoom) -> int {
        spec_grid_y(at.1 as int, self.spec_y0() as int, self.spec_h() as int, zoom)
    }

    /// Whether a region is the clickable region of the cell at a coordinate:
    /// it stands where the mapper puts the cell, is one tile wide and high,
    /// names the coordinate, and is activated while the button is held.
    pub open spec fn is_region_of(&self, region: Clickable, at: Coord, zoom: Zoom) -> bool {
        &&& region.x == self.screen_x(at, zoom)
        &&& region.y == self.screen_y(at, zoom)
        &&& region.w == zoom.spec_tile_side()
        &&& region.h == zoom.spec_tile_side()
        &&& region.id == ButtonId::Grid(at.0, at.1)
        &&& region.hover_click
    }

    /// The clickable region of the cell at a coordinate. It is not empty:
    /// the place at which the cell stands lies in it.
    pub fn region(&self, x: isize, y: isize, zoom: Zoom) -> (region: Clickable)
        ensures
            self.is_region_of(region, (x, y), zoom),
            region.w > 0,
            region.h > 0,
            region.spec_hovered(self.screen_x((x, y), zoom), self.screen_y((x, y), zoom)),
    {
        Clickable {
            x: grid_x(x, self.x0, self.w, zoom),
            y: grid_y(y, self.y0, self.h, zoom),
            w: zoom.tile_side(),
            h: zoom.tile_side(),
            id: ButtonId::Grid(x, y),
            hover_click: true,
        }
    }

    /// Whether a sweep takes the cell at a coordinate away: it does where the
    /// coordinate lies outside the rectangle, and everywhere if `everything`
    /// is set.
    pub open spec fn goes(&self, at: Coord, everything: bool) -> bool {
        everything || !self.in_rect(at)
    }

    /// The list names each cell of `self` that goes once, with its handle,
    /// and nothing else.
    pub open spec fn despawns_exactly(&self, list: Seq<Despawn>, everything: bool) -> bool {
        &&& forall|i: int|
            0 <= i < list.len() ==> {
                let d = #[trigger] list[i];
                &&& self.cells().dom().contains(d.at)
                &&& self.goes(d.at, everything)
                &&& d.handle == self.cells()[d.at].1
            }
        &&& forall|i: int, j: int|
            0 <= i < j < list.len() ==> (#[trigger] list[i]).at != (#[trigger] list[j]).at
        &&& forall|at: Coord|
            #![trigger self.cells().dom().contains(at)]
            self.cells().dom().contains(at) && self.goes(at, everything) ==> exists|i: int|
                0 <= i < list.len() && (#[trigger] list[i]).at == at
    }

    /// The list names each cell of `self` that stays once, with its handle
    /// and its place on screen, and nothing else.
    pub open spec fn moves_exactly(&self, list: Seq<Move>, zoom: Zoom, everything: bool) -> bool {
        &&& forall|i: int|
            0 <= i < list.len() ==> {
                let m = #[trigger] list[i];
                &&& self.cells().dom().contains(m.at)
                &&& !self.goes(m.at, everything)
                &&& m.handle == self.cells()[m.at].1
                &&& m.x == self.screen_x(m.at, zoom)
                &&& m.y == self.screen_y(m.at, zoom)
            }
        &&& forall|i: int, j: int|
            0 <= i < j < list.len() ==> (#[trigger] list[i]).at != (#[trigger] list[j]).at
        &&& forall|at: Coord|
            #![trigger self.cells().dom().contains(at)]
            self.cells().dom().contains(at) && !self.goes(at, everything) ==> exists|i: int|
                0 <= i < list.len() && (#[trigger] list[i]).at == at
    }

    /// The list names each coordinate of the rectangle outside `had` once,
    /// with the handle that the cell has in `self` and with its clickable
    /// region, which is not empty, and nothing else.
    pub open spec fn spawns_exactly(&self, had: Set<Coord>, list: Seq<Spawn>, zoom: Zoom) -> bool {
        &&& forall|i: int|
            0 <= i < list.len() ==> {
                let s = #[trigger] list[i];
                &&& self.in_rect(s.at)
                &&& !had.contains(s.at)
                &&& self.cells().dom().contains(s.at)
                &&& s.handle == self.cells()[s.at].1
                &&& self.is_region_of(s.region, s.at, zoom)
                &&& s.region.w > 0
                &&& s.region.h > 0
            }
        &&& forall|i: int, j: int|
            0 <= i < j < list.len() ==> (#[trigger] list[i]).at != (#[trigger] list[j]).at
        &&& forall|at: Coord|
            #![trigger had.contains(at)]
            self.in_rect(at) && !had.contains(at) ==> exists|i: int|
                0 <= i < list.len() && (#[trigger] list[i]).at == at
    }

    /// Removes the cells that go and returns their handles; lists the cells
    /// that stay with their places on screen.
    fn sweep(&mut self, zoom: Zoom, everything: bool) -> (out: (Vec<Despawn>, Vec<Move>))
        requires
            old(self).wf(),
            old(self).spec_resized(),
        ensures
            final(self).wf(),
            final(self).spec_resized(),
            final(self).same_rect(old(self)),
            final(self).spec_limit() == old(self).spec_limit(),
            forall|at: Coord| #[trigger]
                final(self).cells().dom().contains(at) <==> old(self).cells().dom().contains(at)
                    && !old(self).goes(at, everything),
            forall|at: Coord| #[trigger]
                final(self).cells().dom().contains(at) ==> final(self).cells()[at] == old(self).cells()[at],
            old(self).despawns_exactly(out.0@, everything),
            old(self).moves_exactly(out.1@, zoom, everything),
    {
        let keys = self.tiles.keys();
        let ghost before = *self;
        let mut despawned: Vec<Despawn> = Vec::new();
        let mut moved: Vec<Move> = Vec::new();
        let mut i: usize = 0;
        proof {
            assert forall|at: Coord| #[trigger]
                before.cells().dom().contains(at) implies exists|j: int|
                0 <= j < keys@.len() && keys@[j] == at by {
                assert(keys@.to_set().contains(at));
                assert(keys@.contains(at));
            }
            assert forall|j: int| 0 <= j < keys@.len() implies before.cells().dom().contains(
                #[trigger] keys@[j],
            ) by {
                assert(keys@.contains(keys@[j]));
                assert(keys@.to_set().contains(keys@[j]));
            }
        }
        while i < keys.len()
            invariant
                0 <= i <= keys@.len(),
                self.wf(),
                self.spec_resized(),
                self.same_rect(&before),
                self.spec_limit() == before.spec_limit(),
                before.wf(),
                keys@.no_duplicates(),
                forall|j: int|
                    0 <= j < keys@.len() ==> before.cells().dom().contains(#[trigger] keys@[j]),
                forall|at: Coord| #[trigger]
                    self.cells().dom().contains(at) ==> before.cells().dom().contains(at)
                        && self.cells()[at] == before.cells()[at],
                forall|j: int|
                    i <= j < keys@.len() ==> self.cells().dom().contains(#[trigger] keys@[j]),
                forall|j: int|
                    0 <= j < i ==> (self.cells().dom().contains(#[trigger] keys@[j])
                        <==> !before.goes(keys@[j], everything)),
                forall|k: int|
                    0 <= k < despawned@.len() ==> {
                        let d = #[trigger] despawned@[k];
                        &&& before.cells().dom().contains(d.at)
                        &&& before.goes(d.at, everything)
                        &&& d.handle == before.cells()[d.at].1
                        &&& exists|j: int| 0 <= j < i && #[trigger] keys@[j] == d.at
                    },
                forall|k: int, l: int|
                    0 <= k < l < despawned@.len() ==> (#[trigger] despawned@[k]).at != (
                    #[trigger] despawned@[l]).at,
                forall|j: int|
                    0 <= j < i && before.goes(#[trigger] keys@[j], everything) ==> exists|k: int|
                        0 <= k < despawned@.len() && (#[trigger] despawned@[k]).at == keys@[j],
                forall|k: int|
                    0 <= k < moved@.len() ==> {
                        let m = #[trigger] moved@[k];
                        &&& before.cells().dom().contains(m.at)
                        &&& !before.goes(m.at, everything)
                        &&& m.handle == before.cells()[m.at].1
                        &&& m.x == before.screen_x(m.at, zoom)
                        &&& m.y == before.screen_y(m.at, zoom)
                        &&& exists|j: int| 0 <= j < i && #[trigger] keys@[j] == m.at
                    },
                forall|k: int, l: int|
                    0 <= k < l < moved@.len() ==> (#[trigger] moved@[k]).at != (
                    #[trigger] moved@[l]).at,
                forall|j: int|
                    0 <= j < i && !before.goes(#[trigger] keys@[j], everything) ==> exists|k: int|
                        0 <= k < moved@.len() && (#[trigger] moved@[k]).at == keys@[j],
            decreases keys@.len() - i,
        {
            let at = keys[i];
            let ghost cells_then = self.cells();
            let ghost live_then = self.live();
            let ghost despawned_then = despawned@;
            let ghost moved_then = moved@;
            if !everything && self.contains(at.0, at.1) {
                match self.tiles.get(at) {
                    Some(cell) => {
                        let entry = Move {
                            at,
                            handle: cell.1,
                            x: grid_x(at.0, self.x0, self.w, zoom),
                            y: grid_y(at.1, self.y0, self.h, zoom),
                        };
                        moved.push(entry);
                        proof {
                            let n = moved_then.len() as int;
                            assert(moved@[n] == entry);
                            assert forall|k: int| 0 <= k < n implies moved@[k] == moved_then[k] by {}
                            assert(keys@[i as int] == at);
                            assert forall|k: int| 0 <= k < n implies (#[trigger] moved@[k]).at
                                != at by {
                                let j = choose|j: int| 0 <= j < i && #[trigger] keys@[j] == moved_then[k].at;
                                assert(keys@[j] != keys@[i as int]);
                            }
                            assert forall|j: int|
                                0 <= j < i + 1 && !before.goes(
                                    #[trigger] keys@[j],
                                    everything,
                                ) implies exists|k: int|
                                0 <= k < moved@.len() && (#[trigger] moved@[k]).at == keys@[j] by {
                                if j < i {
                                    let k = choose|k: int|
                                        0 <= k < moved_then.len() && (#[trigger] moved_then[k]).at
                                            == keys@[j];
                                    assert(moved@[k].at == keys@[j]);
                                } else {
                                    assert(moved@[n].at == keys@[j]);
                                }
                            }
                        }
                    },
                    None => {},
                }
            } else {
                match self.tiles.remove(at) {
                    Some(cell) => {
                        self.handles.release(cell.1);
                        let entry = Despawn { at, handle: cell.1 };
                        despawned.push(entry);
                        proof {
                            let n = despawned_then.len() as int;
                            assert(despawned@[n] == entry);
                            assert forall|k: int| 0 <= k < n implies despawned@[k]
                                == despawned_then[k] by {}
                            assert(keys@[i as int] == at);
                            assert forall|k: int| 0 <= k < n implies (#[trigger] despawned@[k]).at
                                != at by {
                                let j = choose|j: int|
                                    0 <= j < i && #[trigger] keys@[j] == despawned_then[k].at;
                                assert(keys@[j] != keys@[i as int]);
                            }
                            assert forall|j: int|
                                0 <= j < i + 1 && before.goes(
                                    #[trigger] keys@[j],
                                    everything,
                                ) implies exists|k: int|
                                0 <= k < despawned@.len() && (#[trigger] despawned@[k]).at
                                    == keys@[j] by {
                                if j < i {
                                    let k = choose|k: int|
                                        0 <= k < despawned_then.len() && (
                                        #[trigger] despawned_then[k]).at == keys@[j];
                                    assert(despawned@[k].at == keys@[j]);
                                } else {
                                    assert(despawned@[n].at == keys@[j]);
                                }
                            }
                            assert forall|other: Coord| #[trigger]
                                self.cells().dom().contains(other) implies self.live().contains(
                                self.cells()[other].1,
                            ) by {
                                assert(cells_then.dom().contains(other));
                                assert(cells_then.dom().contains(at));
                                assert(cells_then[other].1 != cells_then[at].1);
                            }
                            assert forall|live: usize| #[trigger]
                                self.live().contains(live) implies shown_in(self.cells(), live) by {
                                assert(live_then.contains(live));
                                lemma_shown_after_remove(cells_then, at, live);
                            }
                        }
                    },
                    None => {},
                }
            }
            i = i + 1;
        }
        proof {
            assert forall|at: Coord| #[trigger]
                self.cells().dom().contains(at) <==> before.cells().dom().contains(at)
                    && !before.goes(at, everything) by {
                if before.cells().dom().contains(at) {
                    let j = choose|j: int| 0 <= j < keys@.len() && keys@[j] == at;
                    assert(self.cells().dom().contains(keys@[j]) <==> !before.goes(
                        keys@[j],
                        everything,
                    ));
                }
            }
            assert forall|at: Coord|
                #![trigger before.cells().dom().contains(at)]
                before.cells().dom().contains(at) && before.goes(at, everything) implies exists|
                k: int,
            |
                0 <= k < despawned@.len() && (#[trigger] despawned@[k]).at == at by {
                let j = choose|j: int| 0 <= j < keys@.len() && keys@[j] == at;
                assert(before.goes(keys@[j], everything));
            }
            assert forall|at: Coord|
                #![trigger before.cells().dom().contains(at)]
                before.cells().dom().contains(at) && !before.goes(at, everything) implies exists|
                k: int,
            |
                0 <= k < moved@.len() && (#[trigger] moved@[k]).at == at by {
                let j = choose|j: int| 0 <= j < keys@.len() && keys@[j] == at;
                assert(!before.goes(keys@[j], everything));
            }
        }
        (despawned, moved)
    }

    /// Whether a coordinate of the rectangle comes before column `col` of
    /// row `row`, rows and columns counted from the origin, row by row.
    pub open spec fn comes_before(&self, at: Coord, row: int, col: int) -> bool {
        &&& self.in_rect(at)
        &&& (at.1 - self.spec_y0() < row || (at.1 - self.spec_y0() == row && at.0 - self.spec_x0()
            < col))
    }

    /// Gives each coordinate of the rectangle that has no cell a cell with
    /// the default tile and a handle of its own.
    fn fill(&mut self, zoom: Zoom) -> (spawned: Vec<Spawn>)
        requires
            old(self).wf(),
            old(self).spec_resized(),
            forall|at: Coord| #[trigger]
                old(self).cells().dom().contains(at) ==> old(self).in_rect(at),
        ensures
            final(self).wf(),
            final(self).spec_resized(),
            final(self).same_rect(old(self)),
            final(self).spec_limit() == old(self).spec_limit(),
            forall|at: Coord| #[trigger]
                final(self).cells().dom().contains(at) <==> final(self).in_rect(at),
            forall|at: Coord| #[trigger]
                old(self).cells().dom().contains(at) ==> final(self).cells()[at] == old(self).cells()[at],
            forall|at: Coord|
                #![trigger final(self).cells()[at]]
                final(self).in_rect(at) && !old(self).cells().dom().contains(at) ==> final(self).cells()[at].0 == Tile::spec_default(),
            final(self).spawns_exactly(old(self).cells().dom(), spawned@, zoom),
    {
        let ghost before = *self;
        let mut spawned: Vec<Spawn> = Vec::new();
        let w = self.w;
        let h = self.h;
        let x0 = self.x0;
        let y0 = self.y0;
        let mut row: usize = 0;
        let mut col: usize = 0;
        while row < h
            invariant
                self.wf(),
                self.spec_resized(),
                self.same_rect(&before),
                self.spec_limit() == before.spec_limit(),
                w == self.spec_w(),
                h == self.spec_h(),
                x0 == self.spec_x0(),
                y0 == self.spec_y0(),
                0 <= row <= h,
                0 <= col < w,
                row == h ==> col == 0,
                forall|at: Coord| #[trigger]
                    before.cells().dom().contains(at) ==> before.in_rect(at),
                forall|at: Coord| #[trigger]
                    self.cells().dom().contains(at) <==> before.cells().dom().contains(at)
                        || self.comes_before(at, row as int, col as int),
                forall|at: Coord| #[trigger]
                    before.cells().dom().contains(at) ==> self.cells()[at] == before.cells()[at],
                forall|at: Coord|
                    #![trigger self.cells()[at]]
                    self.comes_before(at, row as int, col as int) && !before.cells().dom().contains(
                        at,
                    ) ==> self.cells()[at].0 == Tile::spec_default(),
                forall|k: int|
                    0 <= k < spawned@.len() ==> {
                        let s = #[trigger] spawned@[k];
                        &&& self.in_rect(s.at)
                        &&& !before.cells().dom().contains(s.at)
                        &&& self.cells().dom().contains(s.at)
                        &&& s.handle == self.cells()[s.at].1
                        &&& self.is_region_of(s.region, s.at, zoom)
                &&& s.region.w > 0
                &&& s.region.h > 0
                    },
                forall|k: int, l: int|
                    0 <= k < l < spawned@.len() ==> (#[trigger] spawned@[k]).at != (
                    #[trigger] spawned@[l]).at,
                forall|at: Coord|
                    #![trigger before.cells().dom().contains(at)]
                    self.comes_before(at, row as int, col as int) && !before.cells().dom().contains(
                        at,
                    ) ==> exists|k: int|
                        0 <= k < spawned@.len() && (#[trigger] spawned@[k]).at == at,
            decreases h - row, w - col,
        {
            let x: isize = (x0 as i128 + col as i128) as isize;
            let y: isize = (y0 as i128 + row as i128) as isize;
            let ghost cells_then = self.cells();
            let ghost live_then = self.live();
            let ghost spawned_then = spawned@;
            if self.tiles.get((x, y)).is_none() {
                let handle = self.handles.claim();
                self.tiles.insert((x, y), (Tile::default(), handle));
                proof {
                    assert forall|live: usize| #[trigger]
                        self.live().contains(live) implies shown_in(self.cells(), live) by {
                        assert(live_then.contains(live) || live == handle);
                        lemma_shown_after_insert(
                            cells_then,
                            (x, y),
                            (Tile::spec_default(), handle),
                            live,
                        );
                    }
                }
                let entry = Spawn { at: (x, y), handle, region: self.region(x, y, zoom) };
                spawned.push(entry);
                proof {
                    let n = spawned_then.len() as int;
                    assert(spawned@[n] == entry);
                    assert forall|k: int| 0 <= k < n implies spawned@[k] == spawned_then[k] by {}
                    let next_col = col as int + 1;
                    assert forall|at: Coord|
                        #![trigger before.cells().dom().contains(at)]
                        self.comes_before(at, row as int, next_col)
                            && !before.cells().dom().contains(at) implies exists|k: int|
                        0 <= k < spawned@.len() && (#[trigger] spawned@[k]).at == at by {
                        if at == (x, y) {
                            assert(spawned@[n].at == at);
                        } else {
                            assert(self.comes_before(at, row as int, col as int));
                            let k = choose|k: int|
                                0 <= k < spawned_then.len() && (#[trigger] spawned_then[k]).at
                                    == at;
                            assert(spawned@[k].at == at);
                        }
                    }
                }
            }
            proof {
                let next_col = col as int + 1;
                let next_row = row as int + 1;
                assert forall|at: Coord| #[trigger]
                    self.comes_before(at, row as int, next_col) <==> self.comes_before(
                        at,
                        row as int,
                        col as int,
                    ) || at == (x, y) by {}
                if col + 1 == w {
                    assert forall|at: Coord| #[trigger]
                        self.comes_before(at, next_row, 0) <==> self.comes_before(
                            at,
                            row as int,
                            next_col,
                        ) by {}
                }
            }
            col = col + 1;
            if col == w {
                col = 0;
                row = row + 1;
            }
        }
        proof {
            assert forall|at: Coord| #[trigger] self.in_rect(at) implies self.comes_before(
                at,
                row as int,
                col as int,
            ) by {}
        }
        spawned
    }

    /// What a reconciliation leaves: `self` is `before` with the same
    /// rectangle and no resize waiting; its cells are exactly those of the
    /// rectangle; a cell that `before` had inside the rectangle is unchanged,
    /// tile and handle; a new cell shows the default tile; and `done` lists
    /// what went, what stayed and what appeared.
    pub open spec fn reconciled(&self, before: &Grid, done: Reconciliation, zoom: Zoom) -> bool {
        &&& !self.spec_resized()
        &&& self.same_rect(before)
        &&& self.spec_limit() == before.spec_limit()
        &&& self.cells().dom() == self.rect()
        &&& forall|at: Coord|
            #![trigger self.cells()[at]]
            before.in_rect(at) ==> self.cells()[at] == (if before.cells().dom().contains(at) {
                before.cells()[at]
            } else {
                (Tile::spec_default(), self.cells()[at].1)
            })
        &&& before.despawns_exactly(done.despawned@, false)
        &&& before.moves_exactly(done.moved@, zoom, false)
        &&& self.spawns_exactly(before.cells().dom(), done.spawned@, zoom)
    }

    /// Makes the cells those of the rectangle: a cell outside it goes and
    /// returns its handle, a cell inside it stays as it is and is listed with
    /// its place on screen, and a coordinate of the rectangle without a cell
    /// gets one with the default tile. The cells that go are done with before
    /// the first new one is made.
    pub fn reconcile(&mut self, zoom: Zoom) -> (done: Reconciliation)
        requires
            old(self).wf(),
        ensures
            final(self).wf(),
            final(self).cells().dom() == final(self).rect(),
            final(self).reconciled(old(self), done, zoom),
    {
        self.resized = true;
        let ghost asked = *self;
        assert(asked.cells() == old(self).cells() && asked.live() == old(self).live());
        let (despawned, moved) = self.sweep(zoom, false);
        let ghost swept = *self;
        let spawned = self.fill(zoom);
        let ghost filled = *self;
        self.resized = false;
        proof {
            assert(self.cells() == filled.cells() && self.live() == filled.live());
            assert(asked.cells() == old(self).cells());
            assert(asked.same_rect(old(self)));
            assert forall|at: Coord| asked.in_rect(at) == old(self).in_rect(at) by {}
            assert forall|at: Coord| asked.screen_x(at, zoom) == old(self).screen_x(at, zoom) by {}
            assert forall|at: Coord| asked.screen_y(at, zoom) == old(self).screen_y(at, zoom) by {}
            assert(old(self).moves_exactly(moved@, zoom, false));
            assert(old(self).despawns_exactly(despawned@, false));
            assert(self.cells().dom() =~= self.rect());
            assert forall|at: Coord|
                #![trigger self.cells()[at]]
                old(self).in_rect(at) implies self.cells()[at] == (if old(self).cells().dom().contains(at) {
                    old(self).cells()[at]
                } else {
                    (Tile::spec_default(), self.cells()[at].1)
                }) by {
                if old(self).cells().dom().contains(at) {
                    assert(swept.cells().dom().contains(at));
                    assert(swept.cells()[at] == asked.cells()[at]);
                } else {
                    assert(!swept.cells().dom().contains(at));
                    assert(self.cells()[at].0 == Tile::spec_default());
                }
            }
            assert forall|i: int| 0 <= i < spawned@.len() implies !old(self).cells().dom().contains((#[trigger] spawned@[i]).at) by {
                assert(!swept.cells().dom().contains(spawned@[i].at));
            }
            assert forall|at: Coord|
                #![trigger old(self).cells().dom().contains(at)]
                self.in_rect(at) && !old(self).cells().dom().contains(at) implies exists|i: int|
                0 <= i < spawned@.len() && (#[trigger] spawned@[i]).at == at by {
                assert(!swept.cells().dom().contains(at));
            }
        }
        Reconciliation { despawned, moved, spawned }
    }

    /// The tiles that a list of cells installs: each coordinate shows the
    /// tile of the last entry that names it.
    pub open spec fn installed(entries: Seq<(Coord, Tile)>) -> Map<Coord, Tile>
        decreases entries.len(),
    {
        if entries.len() == 0 {
            Map::empty()
        } else {
            Grid::installed(entries.drop_last()).insert(entries.last().0, entries.last().1)
        }
    }

    /// The tile that a coordinate shows once a list of cells is installed on
    /// an empty grid: the default tile where no entry names the coordinate.
    pub open spec fn tile_after(entries: Seq<(Coord, Tile)>, at: Coord) -> Tile {
        if Grid::installed(entries).dom().contains(at) {
            Grid::installed(entries)[at]
        } else {
            Tile::spec_default()
        }
    }

    /// Discards every cell and starts over with the rectangle and the tiles
    /// given: all of it or, if the rectangle does not fit, nothing. In the
    /// new grid each coordinate of the rectangle has a cell; it shows the
    /// tile of the last entry of `new_cells` that names it, or the default
    /// tile. Entries outside the rectangle are passed over. A resize is left
    /// waiting for the reconciler.
    pub fn replace_all(
        &mut self,
        new_cells: &Vec<(Coord, Tile)>,
        x0: isize,
        y0: isize,
        w: usize,
        h: usize,
        zoom: Zoom,
    ) -> (done: Option<Reconciliation>)
        requires
            old(self).wf(),
        ensures
            final(self).wf(),
            final(self).spec_limit() == old(self).spec_limit(),
            done is Some <==> Grid::rect_fits(x0 as int, y0 as int, w as int, h as int),
            done is None ==> final(self).same_rect(old(self)) && final(self).same_cells(old(self))
                && final(self).spec_resized() == old(self).spec_resized(),
            done is Some ==> {
                &&& final(self).rect_is(x0 as int, y0 as int, w as int, h as int)
                &&& final(self).spec_resized()
                &&& final(self).cells().dom() == final(self).rect()
                &&& forall|at: Coord|
                    #![trigger final(self).cells()[at]]
                    final(self).in_rect(at) ==> final(self).cells()[at].0 == Grid::tile_after(
                        new_cells@,
                        at,
                    )
                &&& old(self).despawns_exactly(done->0.despawned@, true)
                &&& done->0.moved@.len() == 0
                &&& final(self).spawns_exactly(Set::empty(), done->0.spawned@, zoom)
            },
    {
        if w < 1 || h < 1 || x0 as i128 + w as i128 > isize::MAX as i128 || y0 as i128 + h as i128
            > isize::MAX as i128 {
            return None;
        }
        self.resized = true;
        let ghost asked = *self;
        assert(asked.cells() == old(self).cells() && asked.live() == old(self).live());
        let (despawned, moved) = self.sweep(zoom, true);
        let ghost swept = *self;
        proof {
            assert(asked.cells() == old(self).cells());
            assert(old(self).despawns_exactly(despawned@, true));
            if moved@.len() > 0 {
                assert(!asked.goes(moved@[0].at, true));
            }
        }
        self.x0 = x0;
        self.y0 = y0;
        self.w = w;
        self.h = h;
        let ghost emptied = *self;
        assert(emptied.cells() == swept.cells() && emptied.live() == swept.live());
        let spawned = self.fill(zoom);
        let ghost filled = *self;
        proof {
            assert(emptied.cells().dom() =~= Set::<Coord>::empty());
            assert(filled.spawns_exactly(Set::empty(), spawned@, zoom));
        }
        let mut i: usize = 0;
        while i < new_cells.len()
            invariant
                0 <= i <= new_cells@.len(),
                self.wf(),
                self.spec_resized(),
                self.same_rect(&filled),
                self.spec_limit() == filled.spec_limit(),
                forall|at: Coord| #[trigger]
                    self.cells().dom().contains(at) <==> self.in_rect(at),
                forall|at: Coord|
                    #![trigger self.cells()[at]]
                    self.in_rect(at) ==> self.cells()[at].1 == filled.cells()[at].1,
                forall|at: Coord|
                    #![trigger self.cells()[at]]
                    self.in_rect(at) ==> self.cells()[at].0 == Grid::tile_after(
                        new_cells@.take(i as int),
                        at,
                    ),
            decreases new_cells@.len() - i,
        {
            let entry = new_cells[i];
            proof {
                let upto = new_cells@.take(i as int + 1);
                assert(upto.drop_last() =~= new_cells@.take(i as int));
                assert(upto.last() == entry);
            }
            self.set_tile(entry.0.0, entry.0.1, entry.1);
            i = i + 1;
        }
        proof {
            assert(new_cells@.take(i as int) =~= new_cells@);
            assert(self.cells().dom() =~= self.rect());
            assert forall|k: int| 0 <= k < spawned@.len() implies {
                let s = #[trigger] spawned@[k];
                &&& self.in_rect(s.at)
                &&& self.cells().dom().contains(s.at)
                &&& s.handle == self.cells()[s.at].1
                &&& self.is_region_of(s.region, s.at, zoom)
                &&& s.region.w > 0
                &&& s.region.h > 0
            } by {
                let s = spawned@[k];
                assert(filled.in_rect(s.at));
                assert(self.cells()[s.at].1 == filled.cells()[s.at].1);
            }
            assert forall|at: Coord| self.in_rect(at) implies filled.in_rect(at) by {}
            assert(self.spawns_exactly(Set::empty(), spawned@, zoom));
        }
        Some(Reconciliation { despawned, moved, spawned })
    }
}

/// Reconciles the grid if a resize waits for it, and only then: however many
/// changes of the rectangle were asked for since the last pass, they make
/// one reconciliation.
pub fn resize_grid(grid: &mut Grid, zoom: Zoom) -> (done: Option<Reconciliation>)
    requires
        old(grid).wf(),
    ensures
        final(grid).wf(),
        done is Some <==> old(grid).spec_resized(),
        done is Some ==> final(grid).reconciled(old(grid), done->0, zoom),
        done is None ==> final(grid).same_rect(old(grid)) && final(grid).same_cells(old(grid))
            && !final(grid).spec_resized(),
{
    if grid.resized() {
        Some(grid.reconcile(zoom))
    } else {
        None
    }
}

/// A reconciliation of a grid on which no resize waits changes nothing: no
/// cell goes, none appears, and every cell keeps its tile and its handle.
pub proof fn lemma_reconcile_settled(before: &Grid, after: &Grid, done: Reconciliation, zoom: Zoom)
    requires
        before.wf(),
        !before.spec_resized(),
        after.reconciled(before, done, zoom),
    ensures
        after.cells() == before.cells(),
        done.despawned@.len() == 0,
        done.spawned@.len() == 0,
{
    if done.despawned@.len() > 0 {
        assert(before.cells().dom().contains(done.despawned@[0].at));
    }
    if done.spawned@.len() > 0 {
        assert(after.in_rect(done.spawned@[0].at));
        assert(before.cells().dom().contains(done.spawned@[0].at));
    }
    assert forall|at: Coord| after.cells().dom().contains(at) implies #[trigger] after.cells()[at]
        == before.cells()[at] by {
        assert(after.rect().contains(at));
    }
    assert(after.cells().dom() =~= before.cells().dom()) by {
        assert forall|at: Coord| after.cells().dom().contains(at) == before.cells().dom().contains(
            at,
        ) by {
            assert(after.rect().contains(at) == after.in_rect(at));
        }
    }
    assert(after.cells() =~= before.cells());
}

/// Whatever was asked of a grid since its cells were last reconciled, one
/// reconciliation makes its cells those of its rectangle: a coordinate has a
/// cell if and only if it lies in the rectangle as the grid had it when the
/// reconciliation began.
pub proof fn lemma_reconciled_cells_are_the_rectangle(
    before: &Grid,
    after: &Grid,
    done: Reconciliation,
    zoom: Zoom,
)
    requires
        before.wf(),
        after.reconciled(before, done, zoom),
    ensures
        after.rect4() == before.rect4(),
        forall|at: Coord|
            after.cells().dom().contains(at) <==> (before.spec_x0() <= at.0 < before.spec_x0()
                + before.spec_w() && before.spec_y0() <= at.1 < before.spec_y0()
                + before.spec_h()),
{
    assert forall|at: Coord|
        after.cells().dom().contains(at) <==> (before.spec_x0() <= at.0 < before.spec_x0()
            + before.spec_w() && before.spec_y0() <= at.1 < before.spec_y0()
            + before.spec_h()) by {
        assert(after.rect().contains(at) <==> after.in_rect(at));
    }
}

/// At the bounds a resize is refused and leaves the rectangle as it is: a
/// dimension of 1 does not shrink, and a dimension at the limit does not
/// grow.
pub proof fn lemma_resize_at_the_bounds(grid: &Grid, edge: Edge)
    requires
        grid.wf(),
    ensures
        (edge is Left || edge is Right) && grid.spec_w() == 1 ==> !grid.accepts(
            Resize::Shrink(edge),
        ),
        (edge is Top || edge is Bottom) && grid.spec_h() == 1 ==> !grid.accepts(
            Resize::Shrink(edge),
        ),
        (edge is Left || edge is Right) && grid.spec_w() >= grid.spec_limit() ==> !grid.accepts(
            Resize::Grow(edge),
        ),
        (edge is Top || edge is Bottom) && grid.spec_h() >= grid.spec_limit() ==> !grid.accepts(
            Resize::Grow(edge),
        ),
        forall|change: Resize| !grid.accepts(change) ==> #[trigger] grid.asked(change)
            == grid.rect4(),
{
}

/// The mapper and the hit test agree: the place on screen that the mapper
/// gives a cell lies in that cell's clickable region, and in the region of no
/// other cell.
pub proof fn lemma_cell_hit_at_its_place(
    grid: &Grid,
    zoom: Zoom,
    at: Coord,
    region: Clickable,
    other: Coord,
    other_region: Clickable,
)
    requires
        zoom.spec_quarters() > 0,
        grid.is_region_of(region, at, zoom),
        grid.is_region_of(other_region, other, zoom),
    ensures
        region.spec_hovered(grid.screen_x(at, zoom), grid.screen_y(at, zoom)),
        other != at ==> !other_region.spec_hovered(
            grid.screen_x(at, zoom),
            grid.screen_y(at, zoom),
        ),
{
    let side = zoom.spec_tile_side();
    assert(side == 2 * zoom.spec_quarters());
    let dx = at.0 - other.0;
    let dy = at.1 - other.1;
    assert(grid.screen_x(at, zoom) - grid.screen_x(other, zoom) == side * dx) by (nonlinear_arith)
        requires
            grid.screen_x(at, zoom) == spec_grid_x(
                at.0 as int,
                grid.spec_x0() as int,
                grid.spec_w() as int,
                zoom,
            ),
            grid.screen_x(other, zoom) == spec_grid_x(
                other.0 as int,
                grid.spec_x0() as int,
                grid.spec_w() as int,
                zoom,
            ),
            side == zoom.spec_tile_side(),
            dx == at.0 - other.0,
    ;
    assert(grid.screen_y(other, zoom) - grid.screen_y(at, zoom) == side * dy) by (nonlinear_arith)
        requires
            grid.screen_y(at, zoom) == spec_grid_y(
                at.1 as int,
                grid.spec_y0() as int,
                grid.spec_h() as int,
                zoom,
            ),
            grid.screen_y(other, zoom) == spec_grid_y(
                other.1 as int,
                grid.spec_y0() as int,
                grid.spec_h() as int,
                zoom,
            ),
            side == zoom.spec_tile_side(),
            dy == at.1 - other.1,
    ;
    assert(dx != 0 ==> side * dx >= side || side * dx < 0) by (nonlinear_arith)
        requires
            side > 0,
    ;
    assert(dy != 0 ==> side * dy > 0 || side * dy <= -side) by (nonlinear_arith)
        requires
            side > 0,
    ;
}

/// A batch of coordinates whose tiles were changed.
#[derive(Clone, Debug)]
pub struct GridChanged(pub Vec<Coord>);

/// A tile to be shown by what a handle stands for.
#[derive(Clone, Copy, Debug)]
pub struct Refresh {
    pub handle: usize,
    pub tile: Tile,
}

/// The batches of changed coordinates that wait for the next refresh pass.
pub struct ChangeNotifier {
    pending: Vec<GridChanged>,
}

impl Grid {
    /// The cell at a coordinate: none outside the rectangle, and none where
    /// the rectangle has no cell yet.
    pub open spec fn cell_at(&self, at: Coord) -> Option<Cell> {
        if self.in_rect(at) && self.cells().dom().contains(at) {
            Some(self.cells()[at])
        } else {
            None
        }
    }

    /// The refreshes that a batch asks for: one for each coordinate of the
    /// batch that has a cell, in the order of the batch, each with the tile
    /// that the cell shows now.
    pub open spec fn refreshes(&self, batch: Seq<Coord>) -> Seq<Refresh>
        decreases batch.len(),
    {
        if batch.len() == 0 {
            Seq::empty()
        } else {
            let before = self.refreshes(batch.drop_last());
            match self.cell_at(batch.last()) {
                Some(cell) => before.push(Refresh { handle: cell.1, tile: cell.0 }),
                None => before,
            }
        }
    }

    /// The refreshes that a queue of batches asks for: those of each batch,
    /// in the order in which the batches were handed in.
    pub open spec fn all_refreshes(&self, batches: Seq<Seq<Coord>>) -> Seq<Refresh>
        decreases batches.len(),
    {
        if batches.len() == 0 {
            Seq::empty()
        } else {
            self.all_refreshes(batches.drop_last()) + self.refreshes(batches.last())
        }
    }

    /// The cell at a coordinate, tile and handle.
    pub fn cell(&self, x: isize, y: isize) -> (cell: Option<Cell>)
        requires
            self.wf(),
        ensures
            cell == self.cell_at((x, y)),
    {
        if !self.contains(x, y) {
            return None;
        }
        match self.tiles.get((x, y)) {
            Some(cell) => Some(*cell),
            None => None,
        }
    }
}

impl ChangeNotifier {
    /// The batches that wait, oldest first.
    pub closed spec fn batches(&self) -> Seq<Seq<Coord>> {
        Seq::new(self.pending@.len(), |i: int| self.pending@[i].0@)
    }

    /// A notifier on which nothing waits.
    pub fn new() -> (notifier: ChangeNotifier)
        ensures
            notifier.batches().len() == 0,
    {
        ChangeNotifier { pending: Vec::new() }
    }

    /// Hands in a batch: it waits behind those handed in before.
    pub fn notify_changed(&mut self, batch: GridChanged)
        ensures
            final(self).batches() == old(self).batches().push(batch.0@),
    {
        self.pending.push(batch);
        assert(self.batches() =~= old(self).batches().push(batch.0@));
    }
}

/// The refresh pass: every batch that waits is taken, oldest first, and for
/// each of its coordinates that has a cell the cell's tile is handed to the
/// cell's handle. Nothing waits afterwards.
pub fn update_grid(update: &mut ChangeNotifier, grid: &Grid) -> (refreshes: Vec<Refresh>)
    requires
        grid.wf(),
    ensures
        final(update).batches().len() == 0,
        refreshes@ == grid.all_refreshes(old(update).batches()),
{
    let mut refreshes: Vec<Refresh> = Vec::new();
    let mut b: usize = 0;
    let ghost batches = update.batches();
    while b < update.pending.len()
        invariant
            grid.wf(),
            update.batches() == batches,
            batches.len() == update.pending@.len(),
            0 <= b <= batches.len(),
            refreshes@ == grid.all_refreshes(batches.take(b as int)),
        decreases batches.len() - b,
    {
        let ghost before = refreshes@;
        let ghost batch = batches[b as int];
        let mut i: usize = 0;
        while i < update.pending[b].0.len()
            invariant
                grid.wf(),
                update.batches() == batches,
                batches.len() == update.pending@.len(),
                0 <= b < batches.len(),
                batch == batches[b as int],
                batch == update.pending@[b as int].0@,
                0 <= i <= batch.len(),
                refreshes@ == before + grid.refreshes(batch.take(i as int)),
            decreases batch.len() - i,
        {
            let at = update.pending[b].0[i];
            proof {
                let upto = batch.take(i as int + 1);
                assert(upto.drop_last() =~= batch.take(i as int));
                assert(upto.last() == at);
            }
            match grid.cell(at.0, at.1) {
                Some(cell) => {
                    refreshes.push(Refresh { handle: cell.1, tile: cell.0 });
                    assert(refreshes@ =~= before + grid.refreshes(batch.take(i as int + 1)));
                },
                None => {},
            }
            i = i + 1;
        }
        proof {
            assert(batch.take(i as int) =~= batch);
            let upto = batches.take(b as int + 1);
            assert(upto.drop_last() =~= batches.take(b as int));
            assert(upto.last() == batch);
        }
        b = b + 1;
    }
    proof {
        assert(batches.take(b as int) =~= batches);
    }
    update.pending.clear();
    refreshes
}

/// What each handle shows once a list of refreshes is carried out, one after
/// the other, on what the handles showed before.
pub open spec fn shown_after(shown: Map<usize, Tile>, refreshes: Seq<Refresh>) -> Map<usize, Tile>
    decreases refreshes.len(),
{
    if refreshes.len() == 0 {
        shown
    } else {
        shown_after(shown, refreshes.drop_last()).insert(
            refreshes.last().handle,
            refreshes.last().tile,
        )
    }
}

proof fn lemma_shown_after_is_overlay(shown: Map<usize, Tile>, refreshes: Seq<Refresh>)
    ensures
        shown_after(shown, refreshes) == shown.union_prefer_right(
            shown_after(Map::empty(), refreshes),
        ),
    decreases refreshes.len(),
{
    if refreshes.len() == 0 {
        assert(shown =~= shown.union_prefer_right(Map::<usize, Tile>::empty()));
    } else {
        lemma_shown_after_is_overlay(shown, refreshes.drop_last());
        let written = shown_after(Map::empty(), refreshes.drop_last());
        let last = refreshes.last();
        assert(shown.union_prefer_right(written).insert(last.handle, last.tile)
            =~= shown.union_prefer_right(written.insert(last.handle, last.tile)));
    }
}

proof fn lemma_shown_after_concat(shown: Map<usize, Tile>, first: Seq<Refresh>, second: Seq<Refresh>)
    ensures
        shown_after(shown, first + second) == shown_after(shown_after(shown, first), second),
    decreases second.len(),
{
    if second.len() == 0 {
        assert(first + second =~= first);
    } else {
        lemma_shown_after_concat(shown, first, second.drop_last());
        assert((first + second).drop_last() =~= first + second.drop_last());
        assert((first + second).last() == second.last());
    }
}

/// Handing in a batch twice shows the same as handing it in once: whatever
/// the handles showed before, a pass over the batch and its copy leaves what
/// a pass over the batch alone leaves.
pub proof fn lemma_batch_twice_is_once(grid: &Grid, shown: Map<usize, Tile>, batch: Seq<Coord>)
    ensures
        shown_after(shown, grid.all_refreshes(seq![batch, batch])) == shown_after(
            shown,
            grid.all_refreshes(seq![batch]),
        ),
{
    let once = grid.refreshes(batch);
    let one = seq![batch];
    let two = seq![batch, batch];
    assert(one.drop_last() =~= Seq::<Seq<Coord>>::empty());
    assert(one.last() == batch);
    assert(grid.all_refreshes(one.drop_last()) =~= Seq::<Refresh>::empty());
    assert(grid.all_refreshes(one) =~= once);
    assert(two.drop_last() =~= one);
    assert(two.last() == batch);
    assert(grid.all_refreshes(two) =~= once + once);
    lemma_shown_after_concat(shown, once, once);
    let written = shown_after(Map::empty(), once);
    lemma_shown_after_is_overlay(shown, once);
    lemma_shown_after_is_overlay(shown_after(shown, once), once);
    assert(shown.union_prefer_right(written).union_prefer_right(written)
        =~= shown.union_prefer_right(written));
}

/// What a tool shows in place of the hover tile's own glyph, and where it
/// holds the hover tile.
#[derive(Clone, Copy, Debug)]
pub struct HoverTileIndexOverride {
    pub index: usize,
    pub visible: bool,
    pub force_x: Option<isize>,
    pub force_y: Option<isize>,
}

/// How the hover tile looks at a frame. `position` is where it stands now;
/// `None` leaves it where it stood.
#[derive(Clone, Copy, Debug)]
pub struct HoverTile {
    pub index: usize,
    pub flip: bool,
    pub rotation: u8,
    pub bg: Palette,
    pub fg: Palette,
    pub visible: bool,
    pub position: Option<(i128, i128)>,
}

/// Whether an override holds the hover tile at a cell.
pub open spec fn forced(index_override: Option<HoverTileIndexOverride>) -> bool {
    index_override is Some && index_override->0.force_x is Some && index_override->0.force_y
        is Some
}

/// The hover tile of a frame. Its glyph is the override's, upright, or else
/// the selection's as selected, the empty glyph for the eraser; its colours
/// are the selection's. It stands on the cell that an override holds it at,
/// or else on the hovered cell unless shift is down; with neither it is
/// hidden. Where it stands it shows, unless the override hides it.
pub open spec fn spec_hover_tile(
    selection: Selection,
    tool: SelectedTool,
    shift: bool,
    grid: &Grid,
    zoom: Zoom,
    index_override: Option<HoverTileIndexOverride>,
    hovered: Option<(i128, i128)>,
) -> HoverTile {
    let placed = forced(index_override) || (!shift && hovered is Some);
    HoverTile {
        index: if index_override is Some {
            index_override->0.index
        } else if tool.0 is Eraser {
            0
        } else {
            selection.index
        },
        flip: index_override is None && selection.flip,
        rotation: if index_override is Some {
            0
        } else {
            selection.rotation
        },
        bg: selection.bg,
        fg: selection.fg,
        visible: placed && (index_override is None || index_override->0.visible),
        position: if forced(index_override) {
            let at = (index_override->0.force_x->0, index_override->0.force_y->0);
            Some((grid.screen_x(at, zoom) as i128, grid.screen_y(at, zoom) as i128))
        } else if !shift {
            hovered
        } else {
            None
        },
    }
}

/// The hover tile of a frame.
pub fn update_hover_tile(
    selection: &Selection,
    tool: &SelectedTool,
    shift: bool,
    grid: &Grid,
    zoom: Zoom,
    index_override: Option<HoverTileIndexOverride>,
    hovered: Option<(i128, i128)>,
) -> (tile: HoverTile)
    ensures
        tile == spec_hover_tile(*selection, *tool, shift, grid, zoom, index_override, hovered),
{
    let mut tile = HoverTile {
        index: selection.index,
        flip: selection.flip,
        rotation: selection.rotation,
        bg: selection.bg,
        fg: selection.fg,
        visible: false,
        position: None,
    };
    let mut shown = true;
    let mut force: Option<(isize, isize)> = None;
    match index_override {
        Some(over) => {
            tile.index = over.index;
            tile.flip = false;
            tile.rotation = 0;
            shown = over.visible;
            match (over.force_x, over.force_y) {
                (Some(x), Some(y)) => {
                    force = Some((x, y));
                },
                _ => {},
            }
        },
        None => {
            match tool.0 {
                crate::tools::Tools::Eraser => {
                    tile.index = 0;
                },
                _ => {},
            }
        },
    }
    if !shift {
        match hovered {
            Some(position) => {
                tile.visible = shown;
                tile.position = Some(position);
            },
            None => {},
        }
    }
    match force {
        Some((x, y)) => {
            tile.visible = shown;
            tile.position = Some(
                (grid_x(x, grid.x0, grid.w, zoom), grid_y(y, grid.y0, grid.h, zoom)),
            );
        },
        None => {},
    }
    tile
}

} // verus!
