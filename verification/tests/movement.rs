use dungeon_digger::events::{RuledEvent, RuledEventQueue};
use dungeon_digger::map::DungeonMap;
use dungeon_digger::movement::{direction_from_index, validate_move, Hitbox, MoveAttempt};
use dungeon_digger::rect::Rectangle;
use dungeon_digger::tile::{Direction, TileType, WorldPoint};

fn open_map() -> DungeonMap {
    // all floor, one room covering everything
    DungeonMap {
        width: 4,
        height: 4,
        tiles: vec![TileType::Floor; 16],
        rooms: vec![Rectangle::new(0, 0, 4, 4)],
        player_start_pos: WorldPoint { x: 32, y: 32 },
    }
}

#[test]
fn hitboxes_collide_on_strict_overlap() {
    let a = Hitbox {
        pos: WorldPoint { x: 0, y: 0 },
        width: 10,
        height: 10,
    };
    let b = Hitbox {
        pos: WorldPoint { x: 9, y: 0 },
        width: 10,
        height: 10,
    };
    assert!(a.collides_with(&b));
    // edges exactly meeting do not count as overlap
    let c = Hitbox {
        pos: WorldPoint { x: 10, y: 0 },
        width: 10,
        height: 10,
    };
    assert!(!a.collides_with(&c));
}

#[test]
fn validate_move_accepts_a_clear_destination() {
    let map = open_map();
    let attempt = MoveAttempt::new(1, WorldPoint { x: 40, y: 40 }, Direction::Left);
    let mover = Hitbox {
        pos: WorldPoint { x: 10, y: 40 },
        width: 16,
        height: 16,
    };
    assert!(validate_move(&map, &attempt, &mover, &vec![], true));
}

#[test]
fn validate_move_rejects_an_occupied_destination() {
    let map = open_map();
    let attempt = MoveAttempt::new(1, WorldPoint { x: 40, y: 40 }, Direction::Left);
    let mover = Hitbox {
        pos: WorldPoint { x: 10, y: 40 },
        width: 16,
        height: 16,
    };
    let occupant = Hitbox {
        pos: WorldPoint { x: 44, y: 40 },
        width: 16,
        height: 16,
    };
    assert!(!validate_move(&map, &attempt, &mover, &vec![occupant], false));
}

#[test]
fn validate_move_rejects_a_wall_destination() {
    let mut map = open_map();
    map.tiles[1 * 4 + 1] = TileType::Wall;
    let attempt = MoveAttempt::new(1, WorldPoint { x: 40, y: 40 }, Direction::Left);
    let mover = Hitbox {
        pos: WorldPoint { x: 10, y: 40 },
        width: 16,
        height: 16,
    };
    assert!(!validate_move(&map, &attempt, &mover, &vec![], false));
}

#[test]
fn validate_move_enforces_the_room_boundary() {
    let mut map = open_map();
    // shrink the room so cell (1, 1) falls outside it
    map.rooms = vec![Rectangle::new(2, 2, 2, 2)];
    let attempt = MoveAttempt::new(1, WorldPoint { x: 40, y: 40 }, Direction::Left);
    let mover = Hitbox {
        pos: WorldPoint { x: 10, y: 40 },
        width: 16,
        height: 16,
    };
    assert!(!validate_move(&map, &attempt, &mover, &vec![], true));
    assert!(validate_move(&map, &attempt, &mover, &vec![], false));
}

#[test]
fn event_queue_hands_back_the_viable_events() {
    let mut queue: RuledEventQueue<MoveAttempt> = RuledEventQueue::new();
    let a = MoveAttempt::new(1, WorldPoint { x: 10, y: 10 }, Direction::Up);
    let mut b = MoveAttempt::new(2, WorldPoint { x: 20, y: 20 }, Direction::Down);
    b.viable = false;
    let c = MoveAttempt::new(3, WorldPoint { x: 30, y: 30 }, Direction::Left);
    queue.add_event(a);
    queue.add_event(b);
    queue.add_event(c);
    let viable = queue.read_events();
    assert_eq!(viable.len(), 2);
    assert_eq!(viable[0].entity, 1);
    assert_eq!(viable[1].entity, 3);
    // the queue is drained
    assert_eq!(queue.read_events().len(), 0);
}

#[test]
fn move_attempts_start_viable() {
    let a = MoveAttempt::new(9, WorldPoint { x: 1, y: 2 }, Direction::Right);
    assert!(a.is_viable());
    assert_eq!(a.entity, 9);
    assert_eq!(a.destination, WorldPoint { x: 1, y: 2 });
    assert_eq!(a.direction, Direction::Right);
}

#[test]
fn wander_directions_cover_the_four_cases() {
    assert_eq!(direction_from_index(0), Direction::Right);
    assert_eq!(direction_from_index(1), Direction::Left);
    assert_eq!(direction_from_index(2), Direction::Up);
    assert_eq!(direction_from_index(3), Direction::Down);
}
