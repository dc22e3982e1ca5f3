//! The hash map that holds the grid's cells.
//!
//! The map is `bevy::utils::HashMap`, a `hashbrown` map with a hasher that is
//! seeded anew in each process. Nothing in this file is proved: each function
//! hands one call to the map, and its contract restates what `hashbrown`
//! documents for that call, over `cells_of`, the map's contents.
use vstd::prelude::*;

use crate::grid::Tile;

verus! {

/// A tile coordinate: column, then row.
pub type Coord = (isize, isize);

/// A cell: the tile it shows and the handle of what shows it.
pub type Cell = (Tile, usize);

/// The cells of a grid, found by coordinate.
#[verifier::external_body]
pub struct TileMap {
    inner: bevy::utils::HashMap<(isize, isize), (Tile, usize)>,
}

/// What a map holds: for each coordinate that has a cell, that cell.
pub uninterp spec fn cells_of(map: TileMap) -> Map<Coord, Cell>;

impl View for TileMap {
    type V = Map<Coord, Cell>;

    open spec fn view(&self) -> Map<Coord, Cell> {
        cells_of(*self)
    }
}

impl TileMap {
    /// `HashMap::default`: a map that holds nothing.
    #[verifier::external_body]
    pub(crate) fn new() -> (map: TileMap)
        ensures
            cells_of(map).dom() == Set::<Coord>::empty(),
    {
        TileMap { inner: bevy::utils::HashMap::default() }
    }

    /// `HashMap::get`: the cell held for the coordinate, if there is one.
    #[verifier::external_body]
    pub(crate) fn get(&self, at: Coord) -> (cell: Option<&Cell>)
        ensures
            cell is Some <==> cells_of(*self).dom().contains(at),
            cell is Some ==> *cell->0 == cells_of(*self)[at],
    {
        self.inner.get(&at)
    }

    /// `HashMap::get_mut`: the cell held for the coordinate, to be changed in
    /// place. Whatever the caller leaves in it is what the map then holds for
    /// that coordinate; no other cell changes.
    #[verifier::external_body]
    pub(crate) fn get_mut(&mut self, at: Coord) -> (cell: Option<&mut Cell>)
        ensures
            cell is Some <==> cells_of(*old(self)).dom().contains(at),
            cell is Some ==> *cell->0 == cells_of(*old(self))[at],
            cell is Some ==> cells_of(*final(self)) == cells_of(*old(self)).insert(
                at,
                *final(cell->0),
            ),
            cell is None ==> cells_of(*final(self)) == cells_of(*old(self)),
    {
        self.inner.get_mut(&at)
    }

    /// `HashMap::insert`: the map then holds the cell for the coordinate, in
    /// place of the one it held before, which is returned.
    #[verifier::external_body]
    pub(crate) fn insert(&mut self, at: Coord, cell: Cell) -> (before: Option<Cell>)
        ensures
            cells_of(*final(self)) == cells_of(*old(self)).insert(at, cell),
            before is Some <==> cells_of(*old(self)).dom().contains(at),
            before is Some ==> before->0 == cells_of(*old(self))[at],
    {
        self.inner.insert(at, cell)
    }

    /// `HashMap::remove`: the map then holds no cell for the coordinate; the
    /// one it held is returned.
    #[verifier::external_body]
    pub(crate) fn remove(&mut self, at: Coord) -> (before: Option<Cell>)
        ensures
            cells_of(*final(self)) == cells_of(*old(self)).remove(at),
            before is Some <==> cells_of(*old(self)).dom().contains(at),
            before is Some ==> before->0 == cells_of(*old(self))[at],
    {
        self.inner.remove(&at)
    }

    /// `HashMap::keys`, copied out: each coordinate that has a cell, once.
    /// The order is the hasher's and differs from run to run, so nothing is
    /// said of it.
    #[verifier::external_body]
    pub(crate) fn keys(&self) -> (held: Vec<Coord>)
        ensures
            held@.no_duplicates(),
            held@.to_set() == cells_of(*self).dom(),
    {
        self.inner.keys().copied().collect()
    }
}

} // verus!
