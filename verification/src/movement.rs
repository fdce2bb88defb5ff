//! Movement attempts and the validation pipeline that accepts or rejects
//! them: entity collision, wall collision, and the room boundary, checked in
//! that order with a short circuit on the first rejection.

use vstd::prelude::*;
use vstd::math::abs;
use crate::events::RuledEvent;
use crate::map::DungeonMap;
use crate::tile::{Direction, WorldPoint};

verus! {

/// One entity's wish to move to a world-space destination.
pub struct MoveAttempt {
    /// The moving entity, by the caller's identifier.
    pub entity: u64,
    pub destination: WorldPoint,
    pub direction: Direction,
    /// Cleared by the first validator that rejects the attempt.
    pub viable: bool,
}

impl MoveAttempt {
    /// A fresh attempt, viable until a validator rejects it.
    pub fn new(entity: u64, destination: WorldPoint, direction: Direction) -> (r: MoveAttempt)
        ensures
            r == (MoveAttempt { entity, destination, direction, viable: true }),
    {
        MoveAttempt { entity, destination, direction, viable: true }
    }
}

impl RuledEvent for MoveAttempt {
    open spec fn spec_viable(&self) -> bool {
        self.viable
    }

    fn is_viable(&self) -> (r: bool) {
        self.viable
    }
}

/// An axis-aligned collision box centered on `pos`, in world units.
#[derive(Copy, Clone, Debug, PartialEq, Eq, Structural)]
pub struct Hitbox {
    pub pos: WorldPoint,
    pub width: i32,
    pub height: i32,
}

/// Strict overlap of two centered boxes: on each axis, twice the center
/// distance is less than the summed extents.
pub open spec fn spec_collides(a: Hitbox, b: Hitbox) -> bool {
    &&& 2 * abs(a.pos.x - b.pos.x) < a.width + b.width
    &&& 2 * abs(a.pos.y - b.pos.y) < a.height + b.height
}

impl Hitbox {
    /// Whether the two boxes strictly overlap on both axes.
    pub fn collides_with(&self, other_hitbox: &Hitbox) -> (r: bool)
        ensures
            r == spec_collides(*self, *other_hitbox),
    {
        let dx = self.pos.x as i64 - other_hitbox.pos.x as i64;
        let dy = self.pos.y as i64 - other_hitbox.pos.y as i64;
        let adx = if dx < 0 { -dx } else { dx };
        let ady = if dy < 0 { -dy } else { dy };
        2 * adx < self.width as i64 + other_hitbox.width as i64
            && 2 * ady < self.height as i64 + other_hitbox.height as i64
    }
}

/// The mover's box, relocated to the attempted destination.
pub open spec fn moved_hitbox(mover: Hitbox, destination: WorldPoint) -> Hitbox {
    Hitbox { pos: destination, width: mover.width, height: mover.height }
}

/// When a movement attempt passes the whole pipeline: its destination box
/// overlaps no obstacle, the probed destination cell is a floor, and a
/// room-bound mover stays inside some room.
pub open spec fn spec_move_allowed(
    map: DungeonMap, attempt: MoveAttempt, mover: Hitbox, obstacles: Seq<Hitbox>,
    room_bound: bool,
) -> bool {
    &&& forall|i: int|
        0 <= i < obstacles.len() ==> !spec_collides(
            moved_hitbox(mover, attempt.destination),
            #[trigger] obstacles[i],
        )
    &&& map.spec_can_enter(attempt.destination, attempt.direction)
    &&& room_bound ==> map.spec_within_room(attempt.destination)
}

/// The validation pipeline over one attempt: entity collision against every
/// obstacle box (the mover's own box is not among them), then wall
/// collision, then the room boundary for room-bound movers. Rejection short
/// circuits.
#[verifier::loop_isolation(false)]
pub fn validate_move(
    map: &DungeonMap, attempt: &MoveAttempt, mover: &Hitbox, obstacles: &Vec<Hitbox>,
    room_bound: bool,
) -> (ok: bool)
    requires
        map.wf(),
    ensures
        ok == spec_move_allowed(*map, *attempt, *mover, obstacles@, room_bound),
{
    let destination_hitbox = Hitbox {
        pos: attempt.destination,
        width: mover.width,
        height: mover.height,
    };
    let mut i: usize = 0;
    while i < obstacles.len()
        invariant
            i <= obstacles@.len(),
            forall|j: int|
                0 <= j < i ==> !spec_collides(
                    moved_hitbox(*mover, attempt.destination),
                    #[trigger] obstacles@[j],
                ),
        decreases obstacles@.len() - i,
    {
        if destination_hitbox.collides_with(&obstacles[i]) {
            return false;
        }
        i = i + 1;
    }
    if !map.can_enter(attempt.destination, attempt.direction) {
        return false;
    }
    if room_bound && !map.within_room(attempt.destination) {
        return false;
    }
    true
}

/// The direction a drawn index selects when an entity re-rolls its wander
/// direction; indexes outside the four directions fall back to down.
pub open spec fn spec_direction_from_index(index: int) -> Direction {
    if index == 0 {
        Direction::Right
    } else if index == 1 {
        Direction::Left
    } else if index == 2 {
        Direction::Up
    } else {
        Direction::Down
    }
}

/// Maps a drawn index to a wander direction.
pub fn direction_from_index(index: i32) -> (d: Direction)
    ensures
        d == spec_direction_from_index(index as int),
{
    match index {
        0 => Direction::Right,
        1 => Direction::Left,
        2 => Direction::Up,
        _ => Direction::Down,
    }
}

} // verus!
