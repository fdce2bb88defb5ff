use dungeon_digger::map::DungeonMap;
use dungeon_digger::rect::Rectangle;
use dungeon_digger::tile::{CornerType, Direction, TileType, WallType, WorldPoint};
use dungeon_digger::walls::apply_wall_inference;
use dungeon_digger::{get_coordinate_from_index, map_idx, try_map_idx, TILE_SIZE};

/// A 4x3 map: void everywhere except a floor at cell (1,1) and a wall at
/// cell (2,1).
fn small_map() -> DungeonMap {
    let mut tiles = vec![TileType::Void; 12];
    tiles[1 * 4 + 1] = TileType::Floor;
    tiles[1 * 4 + 2] = TileType::Wall;
    DungeonMap {
        width: 4,
        height: 3,
        tiles,
        rooms: vec![Rectangle::new(1, 1, 1, 1)],
        player_start_pos: WorldPoint { x: 32, y: 32 },
    }
}

#[test]
fn can_enter_floor_cell() {
    let map = small_map();
    // a point inside cell (1,1), moving left probes the point itself
    let p = WorldPoint { x: 37, y: 37 };
    assert!(map.can_enter(p, Direction::Left));
}

#[test]
fn can_enter_wall_cell_is_false() {
    let map = small_map();
    // a point inside cell (2,1), which holds a wall
    let p = WorldPoint { x: 69, y: 37 };
    assert!(!map.can_enter(p, Direction::Left));
}

#[test]
fn can_enter_probes_ahead_of_the_sprite() {
    let map = small_map();
    // the point is on floor, but moving right probes 30 units ahead,
    // which lands in the wall cell (2,1)
    let p = WorldPoint { x: 37, y: 37 };
    assert!(!map.can_enter(p, Direction::Right));
}

#[test]
fn can_enter_outside_the_grid_is_blocked() {
    let map = small_map();
    assert!(!map.can_enter(WorldPoint { x: -40, y: 37 }, Direction::Left));
    assert!(!map.can_enter(WorldPoint { x: 4 * 32 + 1, y: 37 }, Direction::Left));
}

#[test]
fn tile_at_is_bounds_checked_and_stable() {
    let map = small_map();
    assert_eq!(map.tile_at(1, 1), Some(TileType::Floor));
    assert_eq!(map.tile_at(2, 1), Some(TileType::Wall));
    assert_eq!(map.tile_at(0, 0), Some(TileType::Void));
    assert_eq!(map.tile_at(-1, 0), None);
    assert_eq!(map.tile_at(4, 0), None);
    assert_eq!(map.tile_at(0, 3), None);
    // repeated lookups return the same classification
    for _ in 0..3 {
        assert_eq!(map.tile_at(1, 1), Some(TileType::Floor));
        assert_eq!(map.tile_at(-1, 0), None);
    }
}

#[test]
fn within_room_follows_the_room_list() {
    let map = small_map();
    // cell (1,1) is the single room
    assert!(map.within_room(WorldPoint { x: 37, y: 37 }));
    // cell (2,1) is outside it
    assert!(!map.within_room(WorldPoint { x: 69, y: 37 }));
    // negative points are outside every room
    assert!(!map.within_room(WorldPoint { x: -5, y: 37 }));
}

#[test]
fn classify_corner_beats_plain_edges() {
    // a wall at (1,1) with void above and void to the left, floors on the
    // remaining sides: an upper-left corner, never Top or Left alone
    let mut tiles = vec![TileType::Floor; 9];
    tiles[1 * 3 + 1] = TileType::Wall;
    tiles[1 * 3 + 0] = TileType::Void; // left neighbor
    tiles[2 * 3 + 1] = TileType::Void; // upper neighbor
    let map = DungeonMap {
        width: 3,
        height: 3,
        tiles,
        rooms: vec![],
        player_start_pos: WorldPoint { x: 0, y: 0 },
    };
    let classified = map.classify_wall_neighborhood(1, 1);
    assert_eq!(classified, WallType::Corner(CornerType::UpperLeft));
    assert_ne!(classified, WallType::Top);
    assert_ne!(classified, WallType::Left);
}

#[test]
fn classify_plain_top_wall() {
    // a wall with void above and floors left, right and below
    let mut tiles = vec![TileType::Floor; 9];
    tiles[1 * 3 + 1] = TileType::Wall;
    tiles[2 * 3 + 1] = TileType::Void;
    let map = DungeonMap {
        width: 3,
        height: 3,
        tiles,
        rooms: vec![],
        player_start_pos: WorldPoint { x: 0, y: 0 },
    };
    assert_eq!(map.classify_wall_neighborhood(1, 1), WallType::Top);
}

#[test]
fn wall_inference_rings_a_floor_block() {
    // a 2x2 floor block in a 4x4 void grid grows a complete wall ring,
    // corner fills included
    let mut tiles = vec![TileType::Void; 16];
    for (x, y) in [(1, 1), (2, 1), (1, 2), (2, 2)] {
        tiles[y * 4 + x] = TileType::Floor;
    }
    let walled = apply_wall_inference(&tiles, 4, 4);
    let f = TileType::Floor;
    let w = TileType::Wall;
    let expected = vec![w, w, w, w, w, f, f, w, w, f, f, w, w, w, w, w];
    assert_eq!(walled, expected);
}

#[test]
fn wall_inference_leaves_isolated_void_alone() {
    let tiles = vec![TileType::Void; 16];
    let walled = apply_wall_inference(&tiles, 4, 4);
    assert_eq!(walled, tiles);
}

#[test]
fn grid_index_round_trip() {
    assert_eq!(map_idx(3, 2), 203);
    assert_eq!(get_coordinate_from_index(203), (3, 2));
    assert_eq!(try_map_idx(3, 2), Some(203));
    assert_eq!(try_map_idx(-1, 2), None);
    assert_eq!(try_map_idx(100, 0), None);
    assert_eq!(try_map_idx(0, 70), None);
    assert_eq!(try_map_idx(99, 69), Some(6999));
    let _ = TILE_SIZE;
}
