use dungeon_digger::gen::{placement_acceptable, GenerationError};
use dungeon_digger::rect::Rectangle;
use dungeon_digger::map::DungeonMap;
use dungeon_digger::tile::TileType;
use dungeon_digger::{MAP_HEIGHT, MAP_WIDTH, NUM_ROOMS, TILE_SIZE};
use rand::rngs::StdRng;
use rand::SeedableRng;

fn assert_map_properties(map: &DungeonMap, expected_rooms: usize) {
    assert_eq!(map.rooms.len(), expected_rooms);

    // no pair of rooms overlaps or nearly touches
    for i in 0..map.rooms.len() {
        for j in 0..map.rooms.len() {
            if i != j {
                assert!(!map.rooms[i].intersects(&map.rooms[j]));
                assert!(!map.rooms[i].touches(&map.rooms[j]));
            }
        }
    }

    // every room lies strictly inside the map
    for room in &map.rooms {
        let (min_x, min_y) = room.min();
        let (max_x, max_y) = room.max();
        assert!(min_x >= 1 && min_y >= 1);
        assert!(max_x < map.width && max_y < map.height);
    }

    // the player spawn sits on a floor cell
    let start_cell_x = map.player_start_pos.x / TILE_SIZE as i32;
    let start_cell_y = map.player_start_pos.y / TILE_SIZE as i32;
    assert_eq!(map.tile_at(start_cell_x, start_cell_y), Some(TileType::Floor));

    // and inside some room
    assert!(map.within_room(map.player_start_pos));

    // every room center is reachable from the spawn across floor cells
    for room in &map.rooms {
        let (cx, cy) = room.center();
        assert_eq!(map.tile_at(cx, cy), Some(TileType::Floor));
        assert!(map.floor_path_exists(start_cell_x, start_cell_y, cx, cy));
    }

    // no wall is sealed in by walls on all four sides
    assert!(map.has_no_sealed_walls());
}

#[test]
fn scenario_100_by_70_with_five_rooms() {
    let mut rng = StdRng::seed_from_u64(42);
    let map = DungeonMap::generate(&mut rng, 100, 70, 5, 15, 15).unwrap();
    assert_map_properties(&map, 5);
}

#[test]
fn generation_properties_hold_across_seeds() {
    for seed in 0..8u64 {
        let mut rng = StdRng::seed_from_u64(seed);
        let map = DungeonMap::generate(&mut rng, 100, 70, 5, 15, 15).unwrap();
        assert_map_properties(&map, 5);
    }
}

#[test]
fn default_sized_map() {
    let mut rng = StdRng::seed_from_u64(7);
    let map = DungeonMap::new(&mut rng).unwrap();
    assert_eq!(map.width, MAP_WIDTH);
    assert_eq!(map.height, MAP_HEIGHT);
    assert_map_properties(&map, NUM_ROOMS);
}

#[test]
fn rooms_that_cannot_fit_are_rejected_before_generation() {
    let mut rng = StdRng::seed_from_u64(1);
    // total room area exceeds the map area
    assert!(matches!(
        DungeonMap::generate(&mut rng, 20, 20, 10, 15, 15),
        Err(GenerationError::InvalidParameters)
    ));
    // no space for the sampling margin
    assert!(matches!(
        DungeonMap::generate(&mut rng, 10, 70, 5, 15, 15),
        Err(GenerationError::InvalidParameters)
    ));
    // no valid room size below the cap
    assert!(matches!(
        DungeonMap::generate(&mut rng, 100, 70, 5, 6, 15),
        Err(GenerationError::InvalidParameters)
    ));
    // a map of zero cells
    assert!(matches!(
        DungeonMap::generate(&mut rng, 0, 70, 5, 15, 15),
        Err(GenerationError::InvalidParameters)
    ));
}

#[test]
fn placement_that_cannot_converge_fails() {
    // geometrically admissible, but any two rooms in a 12x12 map come within
    // the touch threshold of each other, so placement runs out of attempts
    let mut rng = StdRng::seed_from_u64(3);
    assert!(matches!(
        DungeonMap::generate(&mut rng, 12, 12, 2, 7, 7),
        Err(GenerationError::PlacementFailed)
    ));
}

#[test]
fn placement_rejects_a_candidate_too_close_to_a_room() {
    let placed = vec![Rectangle::new(0, 0, 6, 6)];
    // this candidate's center is 3 cells from the placed room's far bound:
    // closer than the corridor clearance of 4, so placement rejects it
    let candidate = Rectangle::new(5, 30, 6, 6);
    assert_eq!(candidate.center(), (8, 33));
    assert!(!placement_acceptable(&placed, &candidate, 100, 70));
    // far away on both axes it is accepted
    let distant = Rectangle::new(40, 30, 6, 6);
    assert!(placement_acceptable(&placed, &distant, 100, 70));
}

#[test]
fn a_single_room_map_generates() {
    let mut rng = StdRng::seed_from_u64(11);
    let map = DungeonMap::generate(&mut rng, 40, 40, 1, 10, 10).unwrap();
    assert_map_properties(&map, 1);
}
