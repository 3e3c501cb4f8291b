//! The grid of tile handles, kept in `bevy_ecs_tilemap`'s `TileStorage`.
//!
//! Nothing in this file is proved: it states what the rest of the library
//! takes for granted about the storage.

use bevy::ecs::entity::Entity;
use bevy_ecs_tilemap::map::TilemapSize;
use bevy_ecs_tilemap::tiles::TilePos;
use bevy_ecs_tilemap::tiles::TileStorage;
use vstd::prelude::*;

verus! {

/// `bevy_ecs_tilemap::tiles::TileStorage`, carried about as a value whose
/// inside is not looked at.
#[verifier::external_type_specification]
#[verifier::external_body]
pub struct ExTileStorage(bevy_ecs_tilemap::tiles::TileStorage);

/// The occupied cells of a storage: each in-bounds cell `(x, y)` that holds an
/// entity, mapped to that entity's bits.
pub uninterp spec fn storage_cells(storage: TileStorage) -> Map<(u32, u32), u64>;

/// The cells of a storage in which nothing has been put yet.
pub open spec fn no_cells() -> Map<(u32, u32), u64> {
    Map::empty()
}

/// The size `(width, height)` that a storage was made with. The library
/// makes every storage with `TileStorage::empty` and never writes to its
/// `size` field, so the storage keeps one slot for each cell of that size.
pub uninterp spec fn storage_extent(storage: TileStorage) -> (u32, u32);

/// `TileStorage::empty`: a storage of the given size in which no cell holds
/// an entity. The cell count is computed in `u32`, so it must fit.
#[verifier::external_body]
pub(crate) fn storage_empty(width: u32, height: u32) -> (storage: TileStorage)
    requires
        width * height <= u32::MAX,
    ensures
        storage_cells(storage) == no_cells(),
        storage_extent(storage) == (width, height),
{
    TileStorage::empty(TilemapSize { x: width, y: height })
}

/// `TileStorage::get`, with the entity handed out as its bits
/// (`Entity::to_bits`): what the cell holds, for a cell inside the storage.
#[verifier::external_body]
pub(crate) fn storage_get(storage: &TileStorage, x: u32, y: u32) -> (tile: Option<u64>)
    requires
        x < storage_extent(*storage).0,
        y < storage_extent(*storage).1,
    ensures
        tile == (if storage_cells(*storage).contains_key((x, y)) {
            Some(storage_cells(*storage)[(x, y)])
        } else {
            None
        }),
{
    storage.get(&TilePos { x, y }).map(Entity::to_bits)
}

/// `TileStorage::set`, with the entity made from its bits
/// (`Entity::from_bits`): the cell holds the entity afterwards, every other
/// cell and the size are as before.
#[verifier::external_body]
pub(crate) fn storage_set(storage: &mut TileStorage, x: u32, y: u32, tile: u64)
    requires
        x < storage_extent(*old(storage)).0,
        y < storage_extent(*old(storage)).1,
    ensures
        storage_cells(*final(storage)) == storage_cells(*old(storage)).insert((x, y), tile),
        storage_extent(*final(storage)) == storage_extent(*old(storage)),
{
    storage.set(&TilePos { x, y }, Entity::from_bits(tile))
}

/// `TileStorage::remove`: the cell is empty afterwards, every other cell and
/// the size are as before.
#[verifier::external_body]
pub(crate) fn storage_remove(storage: &mut TileStorage, x: u32, y: u32)
    requires
        x < storage_extent(*old(storage)).0,
        y < storage_extent(*old(storage)).1,
    ensures
        storage_cells(*final(storage)) == storage_cells(*old(storage)).remove((x, y)),
        storage_extent(*final(storage)) == storage_extent(*old(storage)),
{
    storage.remove(&TilePos { x, y })
}

} // verus!
