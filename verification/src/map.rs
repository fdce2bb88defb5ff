//! The published map and its read-only spatial queries.

use vstd::prelude::*;
use crate::rect::Rectangle;
use crate::tile::{Direction, TileType, WallType, WorldPoint};
use crate::walls::{
    grid_ok, in_bounds, is_floor_at, is_void_at, lemma_cell_index_bounds, spec_wall_type, tile_of,
    wall_type_of,
};

verus! {

/// A generated dungeon: the tile grid, the rooms in discovery order, and the
/// player's spawn point in world units.
pub struct DungeonMap {
    pub width: i32,
    pub height: i32,
    pub tiles: Vec<TileType>,
    pub rooms: Vec<Rectangle>,
    pub player_start_pos: WorldPoint,
}

/// A grid cell lies within a room's closed bounds; equivalently, the 1×1
/// rectangle of that cell intersects the room.
pub open spec fn room_contains_cell(room: Rectangle, cx: int, cy: int) -> bool {
    room.x <= cx <= room.spec_max_x() && room.y <= cy <= room.spec_max_y()
}

/// The x offset a movement probe adds, compensating for the sprite anchor
/// sitting left of the collision footprint when moving right.
pub open spec fn probe_offset_x(dir: Direction) -> int {
    match dir {
        Direction::Right => 30,
        _ => 0,
    }
}

/// The y offset a movement probe adds.
pub open spec fn probe_offset_y(dir: Direction) -> int {
    match dir {
        Direction::Up => 16,
        Direction::Down => -5,
        _ => 0,
    }
}

impl DungeonMap {
    /// The grid really is `width × height` tiles.
    pub open spec fn wf(self) -> bool {
        grid_ok(self.tiles@, self.width as int, self.height as int)
    }

    /// The checked tile lookup: `None` outside the grid.
    pub open spec fn spec_tile_at(self, x: int, y: int) -> Option<TileType> {
        if in_bounds(self.width as int, self.height as int, x, y) {
            Some(tile_of(self.tiles@, self.width as int, x, y))
        } else {
            None
        }
    }

    /// Whether the probe point of a movement toward `dir` lands on a floor
    /// cell. Points whose probed cell lies outside the grid are blocked.
    pub open spec fn spec_can_enter(self, destination: WorldPoint, dir: Direction) -> bool {
        let px = destination.x + probe_offset_x(dir);
        let py = destination.y + probe_offset_y(dir);
        &&& px >= 0
        &&& py >= 0
        &&& is_floor_at(
            self.tiles@,
            self.width as int,
            self.height as int,
            px / (crate::TILE_SIZE as int),
            py / (crate::TILE_SIZE as int),
        )
    }

    /// Whether the cell under a world point overlaps some room.
    pub open spec fn spec_within_room(self, destination: WorldPoint) -> bool {
        &&& destination.x >= 0
        &&& destination.y >= 0
        &&& exists|i: int|
            0 <= i < self.rooms@.len() && room_contains_cell(
                self.rooms@[i],
                destination.x as int / (crate::TILE_SIZE as int),
                destination.y as int / (crate::TILE_SIZE as int),
            )
    }

    /// Bounds-checked tile lookup; callers treat `None` as blocked.
    pub fn tile_at(&self, x: i32, y: i32) -> (r: Option<TileType>)
        requires
            self.wf(),
        ensures
            r == self.spec_tile_at(x as int, y as int),
    {
        if 0 <= x && x < self.width && 0 <= y && y < self.height {
            proof {
                lemma_cell_index_bounds(
                    self.width as int,
                    self.height as int,
                    x as int,
                    y as int,
                );
            }
            Some(self.tiles[(y * self.width + x) as usize])
        } else {
            None
        }
    }

    /// The authoritative walkability test: probes the destination point,
    /// shifted by a per-direction offset, and accepts only a floor cell.
    pub fn can_enter(&self, destination: WorldPoint, dir: Direction) -> (r: bool)
        requires
            self.wf(),
        ensures
            r == self.spec_can_enter(destination, dir),
    {
        let mut px = destination.x as i64;
        let mut py = destination.y as i64;
        match dir {
            Direction::Right => px = px + 30,
            Direction::Up => py = py + 16,
            Direction::Down => py = py - 5,
            Direction::Left => (),
        }
        if px < 0 || py < 0 {
            return false;
        }
        let cx = px / (crate::TILE_SIZE as i64);
        let cy = py / (crate::TILE_SIZE as i64);
        if cx < self.width as i64 && cy < self.height as i64 {
            let t = self.tile_at(cx as i32, cy as i32);
            t == Some(TileType::Floor)
        } else {
            false
        }
    }

    /// Whether the destination's cell lies inside any room; keeps room-bound
    /// units from wandering into corridors.
    pub fn within_room(&self, destination: WorldPoint) -> (r: bool)
        requires
            self.wf(),
        ensures
            r == self.spec_within_room(destination),
    {
        if destination.x < 0 || destination.y < 0 {
            return false;
        }
        let target_x = destination.x / (crate::TILE_SIZE as i32);
        let target_y = destination.y / (crate::TILE_SIZE as i32);
        let target_rectangle = Rectangle::new(target_x, target_y, 1, 1);
        let mut i: usize = 0;
        while i < self.rooms.len()
            invariant
                0 <= i <= self.rooms@.len(),
                target_rectangle == (Rectangle { x: target_x, y: target_y, width: 1, height: 1 }),
                target_x == destination.x / (crate::TILE_SIZE as i32),
                target_y == destination.y / (crate::TILE_SIZE as i32),
                destination.x >= 0,
                destination.y >= 0,
                forall|j: int|
                    0 <= j < i ==> !room_contains_cell(
                        self.rooms@[j], target_x as int, target_y as int,
                    ),
            decreases self.rooms@.len() - i,
        {
            if self.rooms[i].intersects(&target_rectangle) {
                return true;
            }
            i = i + 1;
        }
        false
    }

    /// The wall sprite for a cell already known to hold a wall. Out-of-bounds
    /// neighbors count as void; outer-corner checks win over inner-corner
    /// checks, which win over the plain edges.
    pub fn classify_wall_neighborhood(&self, x: i32, y: i32) -> (r: WallType)
        requires
            self.wf(),
            in_bounds(self.width as int, self.height as int, x as int, y as int),
            tile_of(self.tiles@, self.width as int, x as int, y as int) == TileType::Wall,
        ensures
            r == spec_wall_type(self.tiles@, self.width as int, self.height as int, x as int, y as int),
    {
        wall_type_of(&self.tiles, self.width, self.height, x, y)
    }
}

/// A wall cell with some in-bounds floor or void axis-neighbor; a wall
/// walled in on all four sides is a generation defect.
pub open spec fn wall_open_at(t: Seq<TileType>, w: int, h: int, x: int, y: int) -> bool {
    tile_of(t, w, x, y) == TileType::Wall ==> {
        ||| is_floor_at(t, w, h, x + 1, y) || is_void_at(t, w, h, x + 1, y)
        ||| is_floor_at(t, w, h, x - 1, y) || is_void_at(t, w, h, x - 1, y)
        ||| is_floor_at(t, w, h, x, y + 1) || is_void_at(t, w, h, x, y + 1)
        ||| is_floor_at(t, w, h, x, y - 1) || is_void_at(t, w, h, x, y - 1)
    }
}

/// Every wall cell of the grid is open to a floor or void neighbor.
pub open spec fn all_walls_open(t: Seq<TileType>, w: int, h: int) -> bool {
    forall|x: int, y: int| in_bounds(w, h, x, y) ==> wall_open_at(t, w, h, x, y)
}

impl DungeonMap {
    /// Checks the whole grid for sealed walls: walls none of whose four
    /// axis-neighbors is a floor or a void.
    pub fn has_no_sealed_walls(&self) -> (r: bool)
        requires
            self.wf(),
        ensures
            r == all_walls_open(self.tiles@, self.width as int, self.height as int),
    {
        let w = self.width;
        let h = self.height;
        let mut y: i32 = 0;
        while y < h
            invariant
                self.wf(),
                w == self.width,
                h == self.height,
                0 <= y <= h,
                forall|xx: int, yy: int|
                    0 <= xx < w && 0 <= yy < y ==> wall_open_at(
                        self.tiles@, w as int, h as int, xx, yy,
                    ),
            decreases h - y,
        {
            let mut x: i32 = 0;
            while x < w
                invariant
                    self.wf(),
                    w == self.width,
                    h == self.height,
                    0 <= y < h,
                    0 <= x <= w,
                    forall|xx: int, yy: int|
                        0 <= xx < w && 0 <= yy < y ==> wall_open_at(
                            self.tiles@, w as int, h as int, xx, yy,
                        ),
                    forall|xx: int| 0 <= xx < x ==> wall_open_at(
                        self.tiles@, w as int, h as int, xx, y as int,
                    ),
                decreases w - x,
            {
                if !self.wall_cell_open(x, y) {
                    proof {
                        assert(in_bounds(self.width as int, self.height as int, x as int, y as int)
                            && !wall_open_at(
                                self.tiles@, self.width as int, self.height as int, x as int, y as int,
                            ));
                    }
                    return false;
                }
                x = x + 1;
            }
            y = y + 1;
        }
        true
    }

    /// One cell's check for [`Self::has_no_sealed_walls`].
    fn wall_cell_open(&self, x: i32, y: i32) -> (r: bool)
        requires
            self.wf(),
            in_bounds(self.width as int, self.height as int, x as int, y as int),
        ensures
            r == wall_open_at(self.tiles@, self.width as int, self.height as int, x as int, y as int),
    {
        proof {
            lemma_cell_index_bounds(self.width as int, self.height as int, x as int, y as int);
        }
        if self.tiles[(y * self.width + x) as usize] != TileType::Wall {
            return true;
        }
        self.open_neighbor(x + 1, y) || self.open_neighbor(x - 1, y)
            || self.open_neighbor(x, y + 1) || self.open_neighbor(x, y - 1)
    }

    /// In-bounds and floor or void.
    fn open_neighbor(&self, x: i32, y: i32) -> (r: bool)
        requires
            self.wf(),
            -2 <= x <= crate::walls::GRID_DIM_MAX + 1,
            -2 <= y <= crate::walls::GRID_DIM_MAX + 1,
        ensures
            r == (is_floor_at(self.tiles@, self.width as int, self.height as int, x as int, y as int)
                || is_void_at(self.tiles@, self.width as int, self.height as int, x as int, y as int)),
    {
        if 0 <= x && x < self.width && 0 <= y && y < self.height {
            proof {
                lemma_cell_index_bounds(self.width as int, self.height as int, x as int, y as int);
            }
            let t = self.tiles[(y * self.width + x) as usize];
            t == TileType::Floor || t == TileType::Void
        } else {
            false
        }
    }
}

/// Tile lookup is a pure function of the map and the coordinates: any two
/// results that satisfy `tile_at`'s postcondition for the same arguments are
/// equal, so repeated calls without intervening mutation are stable.
pub proof fn lemma_tile_at_deterministic(
    m: DungeonMap, x: int, y: int, r1: Option<TileType>, r2: Option<TileType>,
)
    requires
        r1 == m.spec_tile_at(x, y),
        r2 == m.spec_tile_at(x, y),
    ensures
        r1 == r2,
{
}

} // verus!
