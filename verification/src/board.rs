//! The board: which tile, if any, sits in each cell of a fixed rectangle.

use crate::cursor::on_board;
use crate::storage::{
    no_cells, storage_cells, storage_empty, storage_extent, storage_get, storage_remove,
    storage_set,
};
use crate::tiles::Position;
use bevy_ecs_tilemap::tiles::TileStorage;
use vstd::prelude::*;

verus! {

/// A rectangle of cells, each empty or holding the handle of one tile.
pub struct Board {
    storage: TileStorage,
    width: u32,
    height: u32,
}

/// The cell directly below `pos`, if `pos` is not on the bottom row.
pub open spec fn below(pos: Position) -> Option<Position> {
    if pos.y != 0 {
        Some(Position { x: pos.x, y: (pos.y - 1) as u32 })
    } else {
        None
    }
}

impl Board {
    /// Number of columns.
    pub closed spec fn width(&self) -> u32 {
        self.width
    }

    /// Number of rows.
    pub closed spec fn height(&self) -> u32 {
        self.height
    }

    /// The occupied cells, as `(x, y)`, each with the handle it holds.
    pub closed spec fn cells(&self) -> Map<(u32, u32), u64> {
        storage_cells(self.storage)
    }

    /// The board's size is that of its storage, and every occupied cell
    /// lies on the board.
    pub closed spec fn wf(&self) -> bool {
        &&& storage_extent(self.storage) == (self.width, self.height)
        &&& forall|x: u32, y: u32| #[trigger]
            self.cells().contains_key((x, y)) ==> x < self.width && y < self.height
    }

    /// A cell lies on this board.
    pub open spec fn holds(&self, pos: Position) -> bool {
        on_board(pos, self.width(), self.height())
    }

    /// What the cell at `pos` holds.
    pub open spec fn tile_at(&self, pos: Position) -> Option<u64> {
        if self.cells().contains_key((pos.x, pos.y)) {
            Some(self.cells()[(pos.x, pos.y)])
        } else {
            None
        }
    }

    /// Column `x` from the bottom row up.
    pub open spec fn column(&self, x: u32) -> Seq<Option<u64>> {
        Seq::new(self.height() as nat, |y: int| self.tile_at(Position { x, y: y as u32 }))
    }

    /// Only cells on the board are occupied.
    pub proof fn lemma_occupied_on_board(&self, pos: Position)
        requires
            self.wf(),
            self.tile_at(pos) is Some,
        ensures
            self.holds(pos),
    {
        assert(self.cells().contains_key((pos.x, pos.y)));
    }

    /// A board of the given size with every cell empty.
    pub fn create(width: u32, height: u32) -> (board: Board)
        requires
            width * height <= u32::MAX,
        ensures
            board.wf(),
            board.width() == width,
            board.height() == height,
            board.cells() == no_cells(),
    {
        Board { storage: storage_empty(width, height), width, height }
    }

    /// The board's width and height.
    pub fn bounds(&self) -> (size: (u32, u32))
        ensures
            size == (self.width(), self.height()),
    {
        (self.width, self.height)
    }

    /// The tile in the cell at `pos`, if there is one.
    pub fn occupant(&self, pos: Position) -> (tile: Option<u64>)
        requires
            self.wf(),
            self.holds(pos),
        ensures
            tile == self.tile_at(pos),
    {
        storage_get(&self.storage, pos.x, pos.y)
    }

    /// Puts `tile` into the cell at `pos`, or empties the cell.
    pub fn set(&mut self, pos: Position, tile: Option<u64>)
        requires
            old(self).wf(),
            old(self).holds(pos),
        ensures
            final(self).wf(),
            final(self).width() == old(self).width(),
            final(self).height() == old(self).height(),
            final(self).cells() == (match tile {
                Some(id) => old(self).cells().insert((pos.x, pos.y), id),
                None => old(self).cells().remove((pos.x, pos.y)),
            }),
            final(self).tile_at(pos) == tile,
            forall|other: Position| other != pos ==> final(self).tile_at(other) == old(self).tile_at(other),
    {
        match tile {
            Some(id) => storage_set(&mut self.storage, pos.x, pos.y, id),
            None => storage_remove(&mut self.storage, pos.x, pos.y),
        }
        assert forall|x: u32, y: u32| #[trigger]
            self.cells().contains_key((x, y)) implies x < self.width && y < self.height by {
            if (x, y) != (pos.x, pos.y) {
                assert(old(self).cells().contains_key((x, y)));
            }
        }
        assert forall|other: Position| other != pos implies self.tile_at(other) == old(self).tile_at(other) by {
            assert((other.x, other.y) != (pos.x, pos.y));
        }
    }

    /// The cell directly below `pos`; gravity does not wrap, so the bottom
    /// row has none.
    pub fn move_down_one(&self, pos: Position) -> (cell: Option<Position>)
        ensures
            cell == below(pos),
            self.holds(pos) && cell is Some ==> self.holds(cell->0),
    {
        if pos.y != 0 {
            Some(Position { x: pos.x, y: pos.y - 1 })
        } else {
            None
        }
    }
}

} // verus!
