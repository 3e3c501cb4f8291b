//! The tile registry: the record of every live tile, found by its handle.

use crate::tiles::TileBundle;
use vstd::prelude::*;

verus! {

/// The records of the live tiles. A handle is the number of tiles created
/// before its own, so no handle is ever given out twice.
pub struct Registry {
    slots: Vec<Option<TileBundle>>,
}

impl Registry {
    /// The live tiles, each under its handle.
    pub closed spec fn tiles(&self) -> Map<u64, TileBundle> {
        Map::new(
            |id: u64| id < self.slots@.len() && self.slots@[id as int] is Some,
            |id: u64| self.slots@[id as int]->0,
        )
    }

    /// How many handles have been given out so far.
    pub closed spec fn issued(&self) -> nat {
        self.slots@.len()
    }

    /// A tile is live.
    pub open spec fn is_live(&self, id: u64) -> bool {
        self.tiles().contains_key(id)
    }

    /// Every live tile has a handle that was given out.
    pub proof fn lemma_live_was_issued(&self, id: u64)
        requires
            self.is_live(id),
        ensures
            id < self.issued(),
    {
    }

    /// A registry without tiles.
    pub fn new() -> (registry: Registry)
        ensures
            registry.tiles() == Map::<u64, TileBundle>::empty(),
            registry.issued() == 0,
    {
        let registry = Registry { slots: Vec::new() };
        assert(registry.tiles() =~= Map::<u64, TileBundle>::empty());
        registry
    }

    /// Creates a tile and returns its handle, which no tile had before.
    pub fn spawn(&mut self, tile: TileBundle) -> (id: u64)
        ensures
            id == old(self).issued(),
            !old(self).is_live(id),
            final(self).issued() == old(self).issued() + 1,
            final(self).tiles() == old(self).tiles().insert(id, tile),
    {
        let id = self.slots.len() as u64;
        self.slots.push(Some(tile));
        assert(self.tiles() =~= old(self).tiles().insert(id, tile));
        id
    }

    /// The record of a tile, if the tile is live.
    pub fn attributes(&self, id: u64) -> (tile: Option<TileBundle>)
        ensures
            tile == (if self.is_live(id) {
                Some(self.tiles()[id])
            } else {
                None
            }),
    {
        if id < self.slots.len() as u64 {
            self.slots[id as usize]
        } else {
            None
        }
    }

    /// Replaces the record of a live tile; says whether the tile was live.
    pub fn set_attributes(&mut self, id: u64, tile: TileBundle) -> (done: bool)
        ensures
            done == old(self).is_live(id),
            final(self).issued() == old(self).issued(),
            final(self).tiles() == (if done {
                old(self).tiles().insert(id, tile)
            } else {
                old(self).tiles()
            }),
    {
        if id < self.slots.len() as u64 {
            if self.slots[id as usize].is_some() {
                self.slots.set(id as usize, Some(tile));
                assert(self.tiles() =~= old(self).tiles().insert(id, tile));
                return true;
            }
        }
        false
    }

    /// Removes a live tile; its handle is never used again.
    pub fn despawn(&mut self, id: u64)
        requires
            old(self).is_live(id),
        ensures
            final(self).issued() == old(self).issued(),
            final(self).tiles() == old(self).tiles().remove(id),
    {
        if id < self.slots.len() as u64 {
            self.slots.set(id as usize, None);
        }
        assert(self.tiles() =~= old(self).tiles().remove(id));
    }
}

} // verus!
