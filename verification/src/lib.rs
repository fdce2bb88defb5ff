//! Procedural dungeon generation and tile-grid spatial queries.
//!
//! The library builds a tile map (rooms, corridors, inferred walls) from a
//! target room count and map size, and answers the read-only queries a game
//! loop needs: is this cell walkable, is this point inside a room, which wall
//! sprite belongs at this cell.

use vstd::prelude::*;

pub mod events;
pub mod gen;
pub mod map;
pub mod movement;
pub mod reach;
pub mod rect;
pub mod rng;
pub mod tile;
pub mod walls;

verus! {

/// Width of the default map, in cells.
pub const MAP_WIDTH: i32 = 100;
/// Height of the default map, in cells.
pub const MAP_HEIGHT: i32 = 70;
/// Cell count of the default map.
pub const NUM_TILES: usize = 7000;
/// World units per grid cell.
pub const TILE_SIZE: usize = 32;
/// Room count of the default map.
pub const NUM_ROOMS: usize = 5;
/// Exclusive upper bound on room width for the default map.
pub const MAX_ROOM_WIDTH: i32 = 15;
/// Exclusive upper bound on room height for the default map.
pub const MAX_ROOM_HEIGHT: i32 = 15;

/// Row-major index of cell `(x, y)` in the default-sized grid.
pub fn map_idx(x: i32, y: i32) -> (r: usize)
    requires
        0 <= x < MAP_WIDTH,
        0 <= y < MAP_HEIGHT,
    ensures
        r == y * MAP_WIDTH + x,
{
    (y * MAP_WIDTH + x) as usize
}

/// Bounds-checked row-major index for the default-sized grid: `None` outside it.
pub fn try_map_idx(x: i32, y: i32) -> (r: Option<usize>)
    ensures
        (0 <= x < MAP_WIDTH && 0 <= y < MAP_HEIGHT) ==> r == Some((y * MAP_WIDTH + x) as usize),
        !(0 <= x < MAP_WIDTH && 0 <= y < MAP_HEIGHT) ==> r is None,
{
    if 0 <= x && x < MAP_WIDTH && 0 <= y && y < MAP_HEIGHT {
        return Some(map_idx(x, y));
    }
    None
}

/// The cell `(x, y)` that a row-major index of the default-sized grid names.
pub fn get_coordinate_from_index(index: usize) -> (r: (i32, i32))
    requires
        index < NUM_TILES,
    ensures
        r.0 == index as int % (MAP_WIDTH as int),
        r.1 == index as int / (MAP_WIDTH as int),
{
    let x = index as i32 % MAP_WIDTH;
    let y = index as i32 / MAP_WIDTH;
    (x, y)
}

} // verus!
