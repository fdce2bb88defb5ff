//! Dungeon generation: room placement, rasterization, corridor carving, and
//! the wall pass, composed into `DungeonMap::generate`.

use vstd::prelude::*;
use crate::map::{room_contains_cell, DungeonMap};
use crate::rect::Rectangle;
use crate::rng::gen_range_i32;
use crate::tile::TileType;
use crate::reach::{
    floor_reachable, lemma_floor_reachable_monotone, lemma_floor_reachable_refl,
    lemma_floor_reachable_trans, lemma_floors_kept_by_coords, lemma_l_connects_h_then_v,
    lemma_l_connects_v_then_h,
};
use crate::walls::{
    apply_wall_inference, grid_ok, in_bounds, is_floor_at, lemma_cell_index_bounds,
    lemma_cell_index_inverse, GRID_DIM_MAX,
};

verus! {

/// Inclusive lower bound on a room's width and height.
pub const MIN_ROOM_DIM: i32 = 6;

/// How far a candidate room's center must stay from every other room's
/// bounds, so a later corridor has space beside the walls.
pub const CORRIDOR_CLEARANCE: i32 = 4;

/// How many candidate rooms placement tries before giving up.
pub const MAX_PLACEMENT_ATTEMPTS: usize = 100000;

/// Why generation returned no map.
#[derive(Copy, Clone, Debug, PartialEq, Eq, Structural)]
pub enum GenerationError {
    /// The requested rooms cannot geometrically fit the requested map.
    InvalidParameters,
    /// Placement did not converge within its attempt budget.
    PlacementFailed,
}

/// The parameters on which generation is defined: positive in-range
/// dimensions, room sizes that leave space for the sampling margins, and a
/// total room area no larger than the map.
pub open spec fn params_ok(
    width: int, height: int, num_rooms: int, max_room_width: int, max_room_height: int,
) -> bool {
    &&& 0 < width <= GRID_DIM_MAX
    &&& 0 < height <= GRID_DIM_MAX
    &&& max_room_width > MIN_ROOM_DIM
    &&& max_room_height > MIN_ROOM_DIM
    &&& width - 1 - max_room_width > 1
    &&& height - 1 - max_room_height > 1
    &&& num_rooms >= 1
    &&& num_rooms * max_room_width * max_room_height <= width * height
}

/// The shape every candidate room has: at least one cell of margin at the
/// low sides, sizes in `[MIN_ROOM_DIM, max)`, and a far corner strictly
/// inside the map.
pub open spec fn room_within_map(
    r: Rectangle, width: int, height: int, max_room_width: int, max_room_height: int,
) -> bool {
    &&& 1 <= r.x
    &&& 1 <= r.y
    &&& MIN_ROOM_DIM <= r.width < max_room_width
    &&& MIN_ROOM_DIM <= r.height < max_room_height
    &&& r.spec_max_x() < width
    &&& r.spec_max_y() < height
}

/// Every later room keeps clear of every earlier one: no overlap, no nearly
/// touching edges, and its center at least [`CORRIDOR_CLEARANCE`] cells from
/// the other's bounds.
pub open spec fn rooms_well_separated(rooms: Seq<Rectangle>) -> bool {
    forall|i: int, j: int|
        0 <= i < j < rooms.len() ==> {
            &&& !(#[trigger] rooms[j]).spec_intersects(#[trigger] rooms[i])
            &&& !rooms[j].spec_touches(rooms[i])
            &&& !rooms[j].spec_center_within_units_of_bounds(rooms[i], CORRIDOR_CLEARANCE as int)
        }
}

/// In a well-separated room list every unordered pair of distinct rooms
/// neither intersects nor touches; the one-directional acceptance checks
/// extend to both directions because both tests are symmetric.
pub proof fn lemma_separated_rooms_disjoint(rooms: Seq<Rectangle>, i: int, j: int)
    requires
        rooms_well_separated(rooms),
        0 <= i < rooms.len(),
        0 <= j < rooms.len(),
        i != j,
    ensures
        !rooms[i].spec_intersects(rooms[j]),
        !rooms[i].spec_touches(rooms[j]),
{
    if i < j {
        crate::rect::lemma_intersects_symmetric(rooms[i], rooms[j]);
        crate::rect::lemma_touches_symmetric(rooms[i], rooms[j]);
    }
}

/// What placement demands of a candidate against the rooms accepted so far.
pub open spec fn spec_room_accepted(
    rooms: Seq<Rectangle>, cand: Rectangle, width: int, height: int,
) -> bool {
    &&& forall|j: int|
        0 <= j < rooms.len() ==> !cand.spec_intersects(#[trigger] rooms[j])
            && !cand.spec_touches(rooms[j])
    &&& forall|j: int|
        0 <= j < rooms.len() ==> !cand.spec_center_within_units_of_bounds(
            #[trigger] rooms[j],
            CORRIDOR_CLEARANCE as int,
        )
    &&& cand.spec_max_x() < width
    &&& cand.spec_max_y() < height
}

/// A uniformly sampled candidate: its top-left inside the map minus a
/// one-cell margin and the space a maximal room needs, its sizes in
/// `[MIN_ROOM_DIM, max)`.
fn generate_random_rectangle(
    rng: &mut rand::rngs::StdRng, width: i32, height: i32, max_room_width: i32,
    max_room_height: i32,
) -> (r: Rectangle)
    requires
        0 < width <= GRID_DIM_MAX,
        0 < height <= GRID_DIM_MAX,
        max_room_width > MIN_ROOM_DIM,
        max_room_height > MIN_ROOM_DIM,
        width - 1 - max_room_width > 1,
        height - 1 - max_room_height > 1,
    ensures
        1 <= r.x < width - 1 - max_room_width,
        1 <= r.y < height - 1 - max_room_height,
        MIN_ROOM_DIM <= r.width < max_room_width,
        MIN_ROOM_DIM <= r.height < max_room_height,
{
    let x = gen_range_i32(rng, 1, width - 1 - max_room_width);
    let y = gen_range_i32(rng, 1, height - 1 - max_room_height);
    let w = gen_range_i32(rng, MIN_ROOM_DIM, max_room_width);
    let h = gen_range_i32(rng, MIN_ROOM_DIM, max_room_height);
    Rectangle::new(x, y, w, h)
}

/// Placement's acceptance test: the candidate overlaps or touches no
/// accepted room, its center keeps corridor clearance from each of them,
/// and its far corner lies strictly inside the map.
pub fn placement_acceptable(
    rooms: &Vec<Rectangle>, cand: &Rectangle, width: i32, height: i32,
) -> (r: bool)
    requires
        cand.width >= 0,
        cand.height >= 0,
    ensures
        r == spec_room_accepted(rooms@, *cand, width as int, height as int),
{
    let mut i: usize = 0;
    while i < rooms.len()
        invariant
            0 <= i <= rooms@.len(),
            cand.width >= 0,
            cand.height >= 0,
            forall|j: int|
                0 <= j < i ==> !cand.spec_intersects(#[trigger] rooms@[j])
                    && !cand.spec_touches(rooms@[j]),
        decreases rooms@.len() - i,
    {
        if cand.intersects(&rooms[i]) || cand.touches(&rooms[i]) {
            return false;
        }
        i = i + 1;
    }
    let mut i: usize = 0;
    while i < rooms.len()
        invariant
            0 <= i <= rooms@.len(),
            cand.width >= 0,
            cand.height >= 0,
            forall|j: int|
                0 <= j < rooms@.len() ==> !cand.spec_intersects(#[trigger] rooms@[j])
                    && !cand.spec_touches(rooms@[j]),
            forall|j: int|
                0 <= j < i ==> !cand.spec_center_within_units_of_bounds(
                    #[trigger] rooms@[j],
                    CORRIDOR_CLEARANCE as int,
                ),
        decreases rooms@.len() - i,
    {
        if cand.center_x_units_away_from_bounds(&rooms[i], CORRIDOR_CLEARANCE) {
            return false;
        }
        i = i + 1;
    }
    let max_x = cand.x as i64 + cand.width as i64 - 1;
    let max_y = cand.y as i64 + cand.height as i64 - 1;
    max_x < width as i64 && max_y < height as i64
}

/// Marks every cell of the room as floor; everything else keeps its tile.
#[verifier::loop_isolation(false)]
fn set_room_tiles(tiles: &mut Vec<TileType>, width: i32, height: i32, room: &Rectangle)
    requires
        grid_ok(old(tiles)@, width as int, height as int),
        0 <= room.x,
        0 <= room.y,
        1 <= room.width,
        1 <= room.height,
        room.spec_max_x() < width,
        room.spec_max_y() < height,
    ensures
        final(tiles)@.len() == old(tiles)@.len(),
        forall|i: int|
            0 <= i < final(tiles)@.len() ==> final(tiles)@[i] == (
            if room_contains_cell(*room, i % (width as int), i / (width as int)) {
                TileType::Floor
            } else {
                old(tiles)@[i]
            }),
{
    let y_end = (room.y as i64 + room.height as i64 - 1) as i32;
    let x_end = (room.x as i64 + room.width as i64 - 1) as i32;
    let mut y = room.y;
    while y <= y_end
        invariant
            grid_ok(tiles@, width as int, height as int),
            tiles@.len() == old(tiles)@.len(),
            x_end == room.spec_max_x(),
            y_end == room.spec_max_y(),
            0 <= room.x,
            room.y <= y <= y_end + 1,
            room.spec_max_x() < width,
            room.spec_max_y() < height,
            forall|i: int|
                0 <= i < tiles@.len() ==> tiles@[i] == (
                if room_contains_cell(*room, i % (width as int), i / (width as int))
                    && i / (width as int) < y {
                    TileType::Floor
                } else {
                    old(tiles)@[i]
                }),
        decreases y_end + 1 - y,
    {
        let mut x = room.x;
        while x <= x_end
            invariant
                grid_ok(tiles@, width as int, height as int),
                tiles@.len() == old(tiles)@.len(),
                x_end == room.spec_max_x(),
                y_end == room.spec_max_y(),
                0 <= room.x,
                room.y <= y <= y_end,
                room.x <= x <= x_end + 1,
                room.spec_max_x() < width,
                room.spec_max_y() < height,
                forall|i: int|
                    0 <= i < tiles@.len() ==> tiles@[i] == (
                    if room_contains_cell(*room, i % (width as int), i / (width as int))
                        && (i / (width as int) < y
                            || (i / (width as int) == y && i % (width as int) < x)) {
                        TileType::Floor
                    } else {
                        old(tiles)@[i]
                    }),
            decreases x_end + 1 - x,
        {
            proof {
                lemma_cell_index_bounds(width as int, height as int, x as int, y as int);
                lemma_cell_index_inverse(width as int, x as int, y as int);
                assert forall|i: int|
                    0 <= i < tiles@.len() && #[trigger] (i % (width as int)) == x
                    && i / (width as int) == y
                    implies i == y * (width as int) + x by {
                    vstd::arithmetic::div_mod::lemma_fundamental_div_mod(i, width as int);
                };
                
            }
            let idx = (y * width + x) as usize;
            tiles.set(idx, TileType::Floor);
            x = x + 1;
        }
        y = y + 1;
    }
}

/// Carves the horizontal segment from `x1` to `x2` at row `y` into floor,
/// skipping cells outside the grid; carving is a union, never an overwrite.
#[verifier::loop_isolation(false)]
fn apply_horizontal_tunnel(
    tiles: &mut Vec<TileType>, width: i32, height: i32, x1: i32, x2: i32, y: i32,
)
    requires
        grid_ok(old(tiles)@, width as int, height as int),
        -GRID_DIM_MAX <= x1 <= GRID_DIM_MAX,
        -GRID_DIM_MAX <= x2 <= GRID_DIM_MAX,
        -GRID_DIM_MAX <= y <= GRID_DIM_MAX,
    ensures
        final(tiles)@.len() == old(tiles)@.len(),
        forall|i: int|
            0 <= i < final(tiles)@.len() ==> final(tiles)@[i] == (
            if i / (width as int) == y
                && (if x1 <= x2 { x1 } else { x2 }) <= i % (width as int)
                && i % (width as int) <= (if x1 <= x2 { x2 } else { x1 }) {
                TileType::Floor
            } else {
                old(tiles)@[i]
            }),
{
    let lo = if x1 <= x2 { x1 } else { x2 };
    let hi = if x1 <= x2 { x2 } else { x1 };
    let mut x = lo;
    while x <= hi
        invariant
            grid_ok(tiles@, width as int, height as int),
            tiles@.len() == old(tiles)@.len(),
            lo <= x <= hi + 1,
            -GRID_DIM_MAX <= lo,
            hi <= GRID_DIM_MAX,
            -GRID_DIM_MAX <= y <= GRID_DIM_MAX,
            forall|i: int|
                0 <= i < tiles@.len() ==> tiles@[i] == (
                if i / (width as int) == y && lo <= i % (width as int)
                    && i % (width as int) < x {
                    TileType::Floor
                } else {
                    old(tiles)@[i]
                }),
        decreases hi + 1 - x,
    {
        if 0 <= x && x < width && 0 <= y && y < height {
            proof {
                lemma_cell_index_bounds(width as int, height as int, x as int, y as int);
                lemma_cell_index_inverse(width as int, x as int, y as int);
                assert forall|i: int|
                    0 <= i < tiles@.len() && #[trigger] (i % (width as int)) == x
                    && i / (width as int) == y
                    implies i == y * (width as int) + x by {
                    vstd::arithmetic::div_mod::lemma_fundamental_div_mod(i, width as int);
                };
                
            }
            let idx = (y * width + x) as usize;
            if tiles[idx] != TileType::Floor {
                tiles.set(idx, TileType::Floor);
            }
        } else {
            proof {
                assert forall|i: int| 0 <= i < tiles@.len() implies !(#[trigger] (i / (width as int)) == y
                    && i % (width as int) == x) by {
                    lemma_index_coords_in_bounds(tiles@.len() as int, width as int, height as int, i);
                }
            }
        }
        x = x + 1;
    }
}

/// Carves the vertical segment from `y1` to `y2` at column `x` into floor,
/// skipping cells outside the grid.
#[verifier::loop_isolation(false)]
fn apply_vertical_tunnel(
    tiles: &mut Vec<TileType>, width: i32, height: i32, y1: i32, y2: i32, x: i32,
)
    requires
        grid_ok(old(tiles)@, width as int, height as int),
        -GRID_DIM_MAX <= y1 <= GRID_DIM_MAX,
        -GRID_DIM_MAX <= y2 <= GRID_DIM_MAX,
        -GRID_DIM_MAX <= x <= GRID_DIM_MAX,
    ensures
        final(tiles)@.len() == old(tiles)@.len(),
        forall|i: int|
            0 <= i < final(tiles)@.len() ==> final(tiles)@[i] == (
            if i % (width as int) == x
                && (if y1 <= y2 { y1 } else { y2 }) <= i / (width as int)
                && i / (width as int) <= (if y1 <= y2 { y2 } else { y1 }) {
                TileType::Floor
            } else {
                old(tiles)@[i]
            }),
{
    let lo = if y1 <= y2 { y1 } else { y2 };
    let hi = if y1 <= y2 { y2 } else { y1 };
    let mut y = lo;
    while y <= hi
        invariant
            grid_ok(tiles@, width as int, height as int),
            tiles@.len() == old(tiles)@.len(),
            lo <= y <= hi + 1,
            -GRID_DIM_MAX <= lo,
            hi <= GRID_DIM_MAX,
            -GRID_DIM_MAX <= x <= GRID_DIM_MAX,
            forall|i: int|
                0 <= i < tiles@.len() ==> tiles@[i] == (
                if i % (width as int) == x && lo <= i / (width as int)
                    && i / (width as int) < y {
                    TileType::Floor
                } else {
                    old(tiles)@[i]
                }),
        decreases hi + 1 - y,
    {
        if 0 <= x && x < width && 0 <= y && y < height {
            proof {
                lemma_cell_index_bounds(width as int, height as int, x as int, y as int);
                lemma_cell_index_inverse(width as int, x as int, y as int);
                assert forall|i: int|
                    0 <= i < tiles@.len() && #[trigger] (i % (width as int)) == x
                    && i / (width as int) == y
                    implies i == y * (width as int) + x by {
                    vstd::arithmetic::div_mod::lemma_fundamental_div_mod(i, width as int);
                };
                
            }
            let idx = (y * width + x) as usize;
            if tiles[idx] != TileType::Floor {
                tiles.set(idx, TileType::Floor);
            }
        } else {
            proof {
                assert forall|i: int| 0 <= i < tiles@.len() implies !(#[trigger] (i % (width as int)) == x
                    && i / (width as int) == y) by {
                    lemma_index_coords_in_bounds(tiles@.len() as int, width as int, height as int, i);
                }
            }
        }
        y = y + 1;
    }
}

/// Any valid index of a `w × h` grid decodes to an in-bounds cell.
pub proof fn lemma_index_coords_in_bounds(len: int, w: int, h: int, i: int)
    by (nonlinear_arith)
    requires
        0 < w,
        0 < h,
        len == w * h,
        0 <= i < len,
    ensures
        0 <= i % w < w,
        0 <= i / w < h,
{
}

/// The shape bounds every accepted room satisfies, enough to compute its
/// center and carve toward it without overflow.
pub open spec fn room_shape_ok(r: Rectangle) -> bool {
    &&& 0 <= r.x
    &&& 0 <= r.y
    &&& 1 <= r.width
    &&& 1 <= r.height
    &&& r.spec_max_x() < GRID_DIM_MAX
    &&& r.spec_max_y() < GRID_DIM_MAX
}

/// Whether the first room's center lies strictly right of the second's.
fn center_x_greater(a: &Rectangle, b: &Rectangle) -> (r: bool)
    requires
        room_shape_ok(*a),
        room_shape_ok(*b),
    ensures
        r == (a.spec_center_x() > b.spec_center_x()),
{
    let ac = a.x as i64 + a.width as i64 / 2;
    let bc = b.x as i64 + b.width as i64 / 2;
    ac > bc
}

/// Every element of the first room list also stands somewhere in the
/// second.
pub open spec fn rooms_drawn_from(a: Seq<Rectangle>, b: Seq<Rectangle>) -> bool {
    forall|i: int| 0 <= i < a.len() ==> b.contains(#[trigger] a[i])
}

/// Orders the rooms by center x, ascending; insertion sort. The result
/// holds exactly the incoming rooms (containment both ways; rooms are
/// swapped, never invented or dropped).
#[verifier::loop_isolation(false)]
fn sort_rooms_by_center_x(rooms: &mut Vec<Rectangle>)
    requires
        forall|i: int| 0 <= i < old(rooms)@.len() ==> room_shape_ok(#[trigger] old(rooms)@[i]),
    ensures
        final(rooms)@.len() == old(rooms)@.len(),
        forall|i: int| 0 <= i < final(rooms)@.len() ==> room_shape_ok(#[trigger] final(rooms)@[i]),
        forall|i: int, j: int|
            0 <= i < j < final(rooms)@.len() ==> (#[trigger] final(rooms)@[i]).spec_center_x()
                <= (#[trigger] final(rooms)@[j]).spec_center_x(),
        rooms_drawn_from(final(rooms)@, old(rooms)@),
        rooms_drawn_from(old(rooms)@, final(rooms)@),
{
    let mut k: usize = 1;
    while k < rooms.len()
        invariant
            1 <= k,
            rooms@.len() == old(rooms)@.len(),
            forall|i: int| 0 <= i < rooms@.len() ==> room_shape_ok(#[trigger] rooms@[i]),
            forall|a: int, b: int|
                0 <= a < b < k && b < rooms@.len() ==> (#[trigger] rooms@[a]).spec_center_x()
                    <= (#[trigger] rooms@[b]).spec_center_x(),
            rooms_drawn_from(rooms@, old(rooms)@),
            rooms_drawn_from(old(rooms)@, rooms@),
        decreases rooms@.len() - k,
    {
        let mut j: usize = k;
        while j > 0 && center_x_greater(&rooms[j - 1], &rooms[j])
            invariant
                0 <= j <= k < rooms@.len(),
                rooms@.len() == old(rooms)@.len(),
                forall|i: int| 0 <= i < rooms@.len() ==> room_shape_ok(#[trigger] rooms@[i]),
                forall|a: int, b: int|
                    0 <= a < b <= k && b != j ==> (#[trigger] rooms@[a]).spec_center_x()
                        <= (#[trigger] rooms@[b]).spec_center_x(),
                rooms_drawn_from(rooms@, old(rooms)@),
                rooms_drawn_from(old(rooms)@, rooms@),
            decreases j,
        {
            let ghost before = rooms@;
            let lower = rooms[j - 1];
            let upper = rooms[j];
            rooms.set(j - 1, upper);
            rooms.set(j, lower);
            proof {
                assert forall|i: int| 0 <= i < rooms@.len() implies old(rooms)@.contains(
                    #[trigger] rooms@[i],
                ) by {
                    if i == j - 1 {
                        assert(rooms@[i] == before[j as int]);
                    } else if i == j {
                        assert(rooms@[i] == before[j - 1]);
                    } else {
                        assert(rooms@[i] == before[i]);
                    }
                };
                assert forall|i: int| 0 <= i < old(rooms)@.len() implies rooms@.contains(
                    #[trigger] old(rooms)@[i],
                ) by {
                    assert(before.contains(old(rooms)@[i]));
                    let wit = choose|t0: int|
                        0 <= t0 < before.len() && before[t0] == old(rooms)@[i];
                    if wit == j - 1 {
                        assert(rooms@[j as int] == old(rooms)@[i]);
                    } else if wit == j {
                        assert(rooms@[j - 1] == old(rooms)@[i]);
                    } else {
                        assert(rooms@[wit] == old(rooms)@[i]);
                    }
                };
            }
            j = j - 1;
        }
        k = k + 1;
    }
}

/// A cell on the L-shaped pair of segments joining two centers: on the
/// first center's row or the second's column between the respective
/// endpoints, or the rotated counterpart.
pub open spec fn on_l_segment(px: int, py: int, qx: int, qy: int, x: int, y: int) -> bool {
    let lox = if px <= qx { px } else { qx };
    let hix = if px <= qx { qx } else { px };
    let loy = if py <= qy { py } else { qy };
    let hiy = if py <= qy { qy } else { py };
    ||| (y == py && lox <= x <= hix)
    ||| (x == qx && loy <= y <= hiy)
    ||| (x == px && loy <= y <= hiy)
    ||| (y == qy && lox <= x <= hix)
}

/// Every cell that differs between the two grids lies on an L between two
/// room centers: carving touches nothing away from its corridors.
pub open spec fn changes_on_corridors(
    t_old: Seq<TileType>, t_new: Seq<TileType>, w: int, rooms: Seq<Rectangle>,
) -> bool {
    forall|idx: int|
        0 <= idx < t_new.len() && (#[trigger] t_new[idx]) != t_old[idx] ==> exists|a: int, b: int|
            0 <= a < rooms.len() && 0 <= b < rooms.len() && #[trigger] on_l_segment(
                rooms[a].spec_center_x(),
                rooms[a].spec_center_y(),
                rooms[b].spec_center_x(),
                rooms[b].spec_center_y(),
                idx % w,
                idx / w,
            )
}

/// Every pair of room centers is joined by a path of floor cells.
pub open spec fn all_centers_connected(
    t: Seq<TileType>, w: int, h: int, rooms: Seq<Rectangle>,
) -> bool {
    forall|i: int, j: int|
        0 <= i < rooms.len() && 0 <= j < rooms.len() ==> floor_reachable(
            t,
            w,
            h,
            (#[trigger] rooms[i]).spec_center_x(),
            rooms[i].spec_center_y(),
            (#[trigger] rooms[j]).spec_center_x(),
            rooms[j].spec_center_y(),
        )
}

/// Connects consecutive rooms, sorted by center x, with L-shaped corridors;
/// whether each runs horizontal-then-vertical or the reverse is drawn from
/// the generator. Carving only ever adds floor — every floor cell of the
/// incoming grid is still a floor afterward and every changed cell is one —
/// and afterward every pair of room centers is joined by a floor path.
#[verifier::loop_isolation(false)]
#[verifier::rlimit(80)]
fn build_corridors(
    rng: &mut rand::rngs::StdRng, tiles: &mut Vec<TileType>, width: i32, height: i32,
    rooms: &Vec<Rectangle>,
)
    requires
        grid_ok(old(tiles)@, width as int, height as int),
        forall|i: int|
            0 <= i < rooms@.len() ==> room_placed_in(
                #[trigger] rooms@[i], width as int, height as int,
            ),
        forall|i: int|
            0 <= i < rooms@.len() ==> is_floor_at(
                old(tiles)@,
                width as int,
                height as int,
                (#[trigger] rooms@[i]).spec_center_x(),
                rooms@[i].spec_center_y(),
            ),
    ensures
        final(tiles)@.len() == old(tiles)@.len(),
        forall|i: int|
            0 <= i < final(tiles)@.len() ==> final(tiles)@[i] == TileType::Floor
                || final(tiles)@[i] == old(tiles)@[i],
        forall|i: int|
            0 <= i < final(tiles)@.len() && old(tiles)@[i] == TileType::Floor
                ==> final(tiles)@[i] == TileType::Floor,
        all_centers_connected(final(tiles)@, width as int, height as int, rooms@),
        changes_on_corridors(old(tiles)@, final(tiles)@, width as int, rooms@),
{
    let ghost wi = width as int;
    let ghost hi = height as int;
    let mut sorted: Vec<Rectangle> = Vec::new();
    let mut i: usize = 0;
    while i < rooms.len()
        invariant
            sorted@.len() == i <= rooms@.len(),
            forall|j: int| 0 <= j < i ==> sorted@[j] == rooms@[j],
        decreases rooms@.len() - i,
    {
        sorted.push(rooms[i]);
        i = i + 1;
    }
    proof {
        assert(sorted@ =~= rooms@);
        assert forall|i2: int| 0 <= i2 < sorted@.len() implies room_shape_ok(
            #[trigger] sorted@[i2],
        ) by {
            assert(room_placed_in(rooms@[i2], wi, hi));
        };
    }
    sort_rooms_by_center_x(&mut sorted);
    proof {
        // every sorted slot holds one of the rooms, so its bounds and its
        // floor center carry over
        assert forall|i2: int| 0 <= i2 < sorted@.len() implies room_placed_in(
            #[trigger] sorted@[i2], wi, hi,
        ) && is_floor_at(
            tiles@, wi, hi, sorted@[i2].spec_center_x(), sorted@[i2].spec_center_y(),
        ) && 0 <= sorted@[i2].spec_center_x() < wi && 0 <= sorted@[i2].spec_center_y() < hi by {
            assert(rooms@.contains(sorted@[i2]));
            let j = choose|j: int| 0 <= j < rooms@.len() && rooms@[j] == sorted@[i2];
            assert(room_placed_in(rooms@[j], wi, hi));
            assert(is_floor_at(
                tiles@, wi, hi, rooms@[j].spec_center_x(), rooms@[j].spec_center_y(),
            ));
            assert(0 <= rooms@[j].width as int / 2 <= rooms@[j].width - 1);
            assert(0 <= rooms@[j].height as int / 2 <= rooms@[j].height - 1);
        };
        if sorted@.len() > 0 {
            lemma_floor_reachable_refl(
                tiles@, wi, hi, sorted@[0].spec_center_x(), sorted@[0].spec_center_y(),
            );
        }
    }
    let mut k: usize = 1;
    while k < sorted.len()
        invariant
            1 <= k,
            grid_ok(tiles@, wi, hi),
            tiles@.len() == old(tiles)@.len(),
            forall|i2: int|
                0 <= i2 < sorted@.len() ==> room_placed_in(#[trigger] sorted@[i2], wi, hi)
                    && 0 <= sorted@[i2].spec_center_x() < wi
                    && 0 <= sorted@[i2].spec_center_y() < hi,
            forall|i2: int|
                0 <= i2 < sorted@.len() ==> is_floor_at(
                    tiles@,
                    wi,
                    hi,
                    (#[trigger] sorted@[i2]).spec_center_x(),
                    sorted@[i2].spec_center_y(),
                ),
            forall|i2: int|
                0 <= i2 < tiles@.len() ==> tiles@[i2] == TileType::Floor
                    || tiles@[i2] == old(tiles)@[i2],
            forall|i2: int|
                0 <= i2 < tiles@.len() && old(tiles)@[i2] == TileType::Floor
                    ==> tiles@[i2] == TileType::Floor,
            changes_on_corridors(old(tiles)@, tiles@, wi, rooms@),
            forall|i2: int|
                0 <= i2 < k && i2 < sorted@.len() ==> floor_reachable(
                    tiles@,
                    wi,
                    hi,
                    sorted@[0].spec_center_x(),
                    sorted@[0].spec_center_y(),
                    (#[trigger] sorted@[i2]).spec_center_x(),
                    sorted@[i2].spec_center_y(),
                ) && floor_reachable(
                    tiles@,
                    wi,
                    hi,
                    sorted@[i2].spec_center_x(),
                    sorted@[i2].spec_center_y(),
                    sorted@[0].spec_center_x(),
                    sorted@[0].spec_center_y(),
                ),
        decreases sorted@.len() - k,
    {
        let prev = sorted[k - 1].center();
        let cur = sorted[k].center();
        let ghost t0 = tiles@;
        let ghost px = prev.0 as int;
        let ghost py = prev.1 as int;
        let ghost qx = cur.0 as int;
        let ghost qy = cur.1 as int;
        let horizontal_first = gen_range_i32(rng, 0, 2) == 1;
        if horizontal_first {
            apply_horizontal_tunnel(tiles, width, height, prev.0, cur.0, prev.1);
            apply_vertical_tunnel(tiles, width, height, prev.1, cur.1, cur.0);
            proof {
                // the horizontal leg in row py and the vertical leg in
                // column qx are floor in the carved grid
                assert forall|x: int|
                    (if px <= qx { px } else { qx }) <= x <= (if px <= qx { qx } else { px })
                    implies #[trigger] is_floor_at(tiles@, wi, hi, x, py) by {
                    lemma_cell_index_bounds(wi, hi, x, py);
                    lemma_cell_index_inverse(wi, x, py);
                };
                assert forall|y: int|
                    (if py <= qy { py } else { qy }) <= y <= (if py <= qy { qy } else { py })
                    implies #[trigger] is_floor_at(tiles@, wi, hi, qx, y) by {
                    lemma_cell_index_bounds(wi, hi, qx, y);
                    lemma_cell_index_inverse(wi, qx, y);
                };
                lemma_l_connects_h_then_v(tiles@, wi, hi, px, py, qx, qy);
            }
        } else {
            apply_vertical_tunnel(tiles, width, height, prev.1, cur.1, prev.0);
            apply_horizontal_tunnel(tiles, width, height, prev.0, cur.0, cur.1);
            proof {
                // the vertical leg in column px and the horizontal leg in
                // row qy are floor in the carved grid
                assert forall|y: int|
                    (if py <= qy { py } else { qy }) <= y <= (if py <= qy { qy } else { py })
                    implies #[trigger] is_floor_at(tiles@, wi, hi, px, y) by {
                    lemma_cell_index_bounds(wi, hi, px, y);
                    lemma_cell_index_inverse(wi, px, y);
                };
                assert forall|x: int|
                    (if px <= qx { px } else { qx }) <= x <= (if px <= qx { qx } else { px })
                    implies #[trigger] is_floor_at(tiles@, wi, hi, x, qy) by {
                    lemma_cell_index_bounds(wi, hi, x, qy);
                    lemma_cell_index_inverse(wi, x, qy);
                };
                lemma_l_connects_v_then_h(tiles@, wi, hi, px, py, qx, qy);
            }
        }
        proof {
            // every cell this step changed lies on the L between the
            // current pair's centers, which are two of the rooms' centers
            assert forall|idx: int|
                0 <= idx < tiles@.len() && (#[trigger] tiles@[idx]) != old(tiles)@[idx]
                implies exists|a: int, b: int|
                    0 <= a < rooms@.len() && 0 <= b < rooms@.len() && #[trigger] on_l_segment(
                        rooms@[a].spec_center_x(),
                        rooms@[a].spec_center_y(),
                        rooms@[b].spec_center_x(),
                        rooms@[b].spec_center_y(),
                        idx % wi,
                        idx / wi,
                    ) by {
                if tiles@[idx] != t0[idx] {
                    lemma_index_coords_in_bounds(tiles@.len() as int, wi, hi, idx);
                    assert(rooms@.contains(sorted@[k - 1]));
                    assert(rooms@.contains(sorted@[k as int]));
                    let a = choose|a: int|
                        0 <= a < rooms@.len() && rooms@[a] == sorted@[k - 1];
                    let b = choose|b: int|
                        0 <= b < rooms@.len() && rooms@[b] == sorted@[k as int];
                    assert(on_l_segment(
                        rooms@[a].spec_center_x(),
                        rooms@[a].spec_center_y(),
                        rooms@[b].spec_center_x(),
                        rooms@[b].spec_center_y(),
                        idx % wi,
                        idx / wi,
                    ));
                }
            };
            // one carving step only adds floors, so earlier links survive
            lemma_floors_kept_by_coords(t0, tiles@, wi, hi);
            assert forall|i2: int| 0 <= i2 < sorted@.len() implies is_floor_at(
                tiles@,
                wi,
                hi,
                (#[trigger] sorted@[i2]).spec_center_x(),
                sorted@[i2].spec_center_y(),
            ) by {
                assert(is_floor_at(
                    t0, wi, hi, sorted@[i2].spec_center_x(), sorted@[i2].spec_center_y(),
                ));
            };
            assert forall|i2: int| 0 <= i2 < k + 1 && i2 < sorted@.len() implies floor_reachable(
                tiles@,
                wi,
                hi,
                sorted@[0].spec_center_x(),
                sorted@[0].spec_center_y(),
                (#[trigger] sorted@[i2]).spec_center_x(),
                sorted@[i2].spec_center_y(),
            ) && floor_reachable(
                tiles@,
                wi,
                hi,
                sorted@[i2].spec_center_x(),
                sorted@[i2].spec_center_y(),
                sorted@[0].spec_center_x(),
                sorted@[0].spec_center_y(),
            ) by {
                let c0x = sorted@[0].spec_center_x();
                let c0y = sorted@[0].spec_center_y();
                if i2 < k {
                    lemma_floor_reachable_monotone(
                        t0, tiles@, wi, hi, c0x, c0y,
                        sorted@[i2].spec_center_x(), sorted@[i2].spec_center_y(),
                    );
                    lemma_floor_reachable_monotone(
                        t0, tiles@, wi, hi,
                        sorted@[i2].spec_center_x(), sorted@[i2].spec_center_y(), c0x, c0y,
                    );
                } else {
                    lemma_floor_reachable_monotone(t0, tiles@, wi, hi, c0x, c0y, px, py);
                    lemma_floor_reachable_monotone(t0, tiles@, wi, hi, px, py, c0x, c0y);
                    lemma_floor_reachable_trans(tiles@, wi, hi, c0x, c0y, px, py, qx, qy);
                    lemma_floor_reachable_trans(tiles@, wi, hi, qx, qy, px, py, c0x, c0y);
                }
            };
        }
        k = k + 1;
    }
    proof {
        // every room stands in some sorted slot; route any pair of centers
        // through slot 0
        assert forall|i2: int, j2: int|
            0 <= i2 < rooms@.len() && 0 <= j2 < rooms@.len() implies floor_reachable(
            tiles@,
            wi,
            hi,
            (#[trigger] rooms@[i2]).spec_center_x(),
            rooms@[i2].spec_center_y(),
            (#[trigger] rooms@[j2]).spec_center_x(),
            rooms@[j2].spec_center_y(),
        ) by {
            assert(sorted@.contains(rooms@[i2]));
            assert(sorted@.contains(rooms@[j2]));
            let pi = choose|p: int| 0 <= p < sorted@.len() && sorted@[p] == rooms@[i2];
            let pj = choose|p: int| 0 <= p < sorted@.len() && sorted@[p] == rooms@[j2];
            lemma_floor_reachable_trans(
                tiles@,
                wi,
                hi,
                sorted@[pi].spec_center_x(),
                sorted@[pi].spec_center_y(),
                sorted@[0].spec_center_x(),
                sorted@[0].spec_center_y(),
                sorted@[pj].spec_center_x(),
                sorted@[pj].spec_center_y(),
            );
        };
    }
}

/// What placement guarantees when it converges: the requested number of
/// rooms, each within the map, pairwise well separated, and `(sx, sy)` the
/// center of the leftmost-centered room, the earliest accepted one when
/// several share the minimal center x.
pub open spec fn placed_rooms_ok(
    rooms: Seq<Rectangle>, sx: int, sy: int, width: int, height: int, num_rooms: int,
    max_room_width: int, max_room_height: int,
) -> bool {
    &&& rooms.len() == num_rooms
    &&& forall|i: int|
        0 <= i < rooms.len() ==> room_within_map(
            #[trigger] rooms[i], width, height, max_room_width, max_room_height,
        )
    &&& rooms_well_separated(rooms)
    &&& exists|i: int|
        0 <= i < rooms.len() && (#[trigger] rooms[i]).spec_center_x() == sx
            && rooms[i].spec_center_y() == sy && (forall|j: int|
            0 <= j < i ==> (#[trigger] rooms[j]).spec_center_x() > sx)
    &&& forall|i: int| 0 <= i < rooms.len() ==> sx <= (#[trigger] rooms[i]).spec_center_x()
}

/// Samples candidate rooms until the target count is accepted or the attempt
/// budget runs out; returns the rooms and the start room's center.
#[verifier::loop_isolation(false)]
fn place_rooms(
    rng: &mut rand::rngs::StdRng, width: i32, height: i32, num_rooms: usize,
    max_room_width: i32, max_room_height: i32,
) -> (r: Option<(Vec<Rectangle>, i32, i32)>)
    requires
        params_ok(
            width as int,
            height as int,
            num_rooms as int,
            max_room_width as int,
            max_room_height as int,
        ),
    ensures
        r matches Some(res) ==> placed_rooms_ok(
            res.0@,
            res.1 as int,
            res.2 as int,
            width as int,
            height as int,
            num_rooms as int,
            max_room_width as int,
            max_room_height as int,
        ),
{
    let mut rooms: Vec<Rectangle> = Vec::new();
    let mut player_starting_x: i32 = 0;
    let mut player_starting_y: i32 = 0;
    let mut attempts: usize = 0;
    while rooms.len() < num_rooms && attempts < MAX_PLACEMENT_ATTEMPTS
        invariant
            rooms@.len() <= num_rooms,
            attempts <= MAX_PLACEMENT_ATTEMPTS,
            forall|i: int|
                0 <= i < rooms@.len() ==> room_within_map(
                    #[trigger] rooms@[i],
                    width as int,
                    height as int,
                    max_room_width as int,
                    max_room_height as int,
                ),
            rooms_well_separated(rooms@),
            rooms@.len() == 0 ==> player_starting_x == 0,
            rooms@.len() > 0 ==> {
                &&& player_starting_x > 0
                &&& exists|i: int|
                    0 <= i < rooms@.len()
                        && (#[trigger] rooms@[i]).spec_center_x() == player_starting_x
                        && rooms@[i].spec_center_y() == player_starting_y && (forall|j: int|
                        0 <= j < i ==> (#[trigger] rooms@[j]).spec_center_x()
                            > player_starting_x)
                &&& forall|i: int|
                    0 <= i < rooms@.len() ==> player_starting_x
                        <= (#[trigger] rooms@[i]).spec_center_x()
            },
        decreases MAX_PLACEMENT_ATTEMPTS - attempts,
    {
        attempts = attempts + 1;
        let room = generate_random_rectangle(rng, width, height, max_room_width, max_room_height);
        if placement_acceptable(&rooms, &room, width, height) {
            let c = room.center();
            proof {
                assert(room.spec_center_x() >= room.x + 3);
            }
            let ghost prev_rooms = rooms@;
            let ghost prev_sx = player_starting_x as int;
            if c.0 < player_starting_x || player_starting_x == 0 {
                player_starting_x = c.0;
                player_starting_y = c.1;
            }
            rooms.push(room);
            proof {
                let n = prev_rooms.len() as int;
                assert(rooms@ == prev_rooms.push(room));
                if prev_sx == 0 || (c.0 as int) < prev_sx {
                    // the new room wins: every earlier room's center is
                    // strictly to the right of the new start
                    assert((#[trigger] rooms@[n]).spec_center_x() == player_starting_x as int
                        && rooms@[n].spec_center_y() == player_starting_y as int && (forall|
                        j: int,
                    |
                        0 <= j < n ==> (#[trigger] rooms@[j]).spec_center_x()
                            > player_starting_x as int));
                } else {
                    let i0 = choose|i: int|
                        0 <= i < prev_rooms.len()
                            && (#[trigger] prev_rooms[i]).spec_center_x() == prev_sx
                            && prev_rooms[i].spec_center_y() == player_starting_y as int && (
                        forall|j: int|
                            0 <= j < i ==> (#[trigger] prev_rooms[j]).spec_center_x() > prev_sx);
                    assert((#[trigger] rooms@[i0]).spec_center_x() == player_starting_x as int
                        && rooms@[i0].spec_center_y() == player_starting_y as int && (forall|
                        j: int,
                    |
                        0 <= j < i0 ==> (#[trigger] rooms@[j]).spec_center_x()
                            > player_starting_x as int));
                }
            }
        }
    }
    if rooms.len() == num_rooms {
        Some((rooms, player_starting_x, player_starting_y))
    } else {
        None
    }
}

/// A room that fits the map with its one-cell margin, independent of the
/// size caps it was sampled under.
pub open spec fn room_placed_in(r: Rectangle, width: int, height: int) -> bool {
    &&& 1 <= r.x
    &&& 1 <= r.y
    &&& MIN_ROOM_DIM <= r.width
    &&& MIN_ROOM_DIM <= r.height
    &&& r.spec_max_x() < width
    &&& r.spec_max_y() < height
}

/// A cell strictly inside a room: all four of its axis-neighbors are room
/// cells too.
pub open spec fn strictly_inside(r: Rectangle, cx: int, cy: int) -> bool {
    r.x < cx < r.spec_max_x() && r.y < cy < r.spec_max_y()
}

/// Every cell strictly inside any room is a floor. Room rim cells are not
/// covered: a corner fill of the wall pass may claim a cell on a room's rim
/// where another floor region runs diagonally past it.
pub open spec fn room_interiors_floor(m: DungeonMap) -> bool {
    forall|i: int, cx: int, cy: int|
        0 <= i < m.rooms@.len() && #[trigger] strictly_inside(m.rooms@[i], cx, cy)
            ==> is_floor_at(m.tiles@, m.width as int, m.height as int, cx, cy)
}

/// The spawn point is the center of the leftmost-centered room — the
/// earliest accepted one when several share the minimal center x — scaled
/// to world units, and that center cell is a floor.
pub open spec fn player_start_ok(m: DungeonMap) -> bool {
    exists|i: int|
        0 <= i < m.rooms@.len() && {
            &&& m.player_start_pos.x == (#[trigger] m.rooms@[i]).spec_center_x() * (
            crate::TILE_SIZE as int)
            &&& m.player_start_pos.y == m.rooms@[i].spec_center_y() * (crate::TILE_SIZE as int)
            &&& is_floor_at(
                m.tiles@,
                m.width as int,
                m.height as int,
                m.rooms@[i].spec_center_x(),
                m.rooms@[i].spec_center_y(),
            )
            &&& forall|j: int|
                0 <= j < m.rooms@.len() ==> m.rooms@[i].spec_center_x()
                    <= (#[trigger] m.rooms@[j]).spec_center_x()
            &&& forall|j: int|
                0 <= j < i ==> (#[trigger] m.rooms@[j]).spec_center_x()
                    > m.rooms@[i].spec_center_x()
        }
}

/// The published tiles are the wall-inference pass over a carved grid in
/// which every room cell is a floor and all room centers are mutually
/// joined by floor paths: rooms were rasterized and corridors carved before
/// the walls were inferred. (The wall pass itself can reclaim single carved
/// cells for corner fills, so connectivity of the published grid is checked
/// per map with `floor_path_exists`.)
pub open spec fn carved_before_walls(m: DungeonMap) -> bool {
    exists|pre: Seq<TileType>| {
        &&& grid_ok(pre, m.width as int, m.height as int)
        &&& m.tiles@ == #[trigger] crate::walls::walls_applied(pre, m.width as int, m.height as int)
        &&& forall|i: int, cx: int, cy: int|
            0 <= i < m.rooms@.len() && #[trigger] room_contains_cell(m.rooms@[i], cx, cy)
                ==> is_floor_at(pre, m.width as int, m.height as int, cx, cy)
        &&& all_centers_connected(pre, m.width as int, m.height as int, m.rooms@)
    }
}

/// Everything `generate` promises of a map it returns.
pub open spec fn generated_map_ok(
    m: DungeonMap, width: int, height: int, num_rooms: int, max_room_width: int,
    max_room_height: int,
) -> bool {
    &&& m.wf()
    &&& m.width == width
    &&& m.height == height
    &&& m.rooms@.len() == num_rooms
    &&& forall|i: int|
        0 <= i < m.rooms@.len() ==> room_within_map(
            #[trigger] m.rooms@[i], width, height, max_room_width, max_room_height,
        )
    &&& rooms_well_separated(m.rooms@)
    &&& player_start_ok(m)
    &&& room_interiors_floor(m)
    &&& carved_before_walls(m)
}

impl DungeonMap {
    /// Rasterizes the placed rooms onto a void grid, carves the corridors,
    /// runs the wall pass, and assembles the map.
    #[verifier::loop_isolation(false)]
    #[verifier::rlimit(100)]
    fn build_from_rooms(
        rng: &mut rand::rngs::StdRng, width: i32, height: i32, rooms: Vec<Rectangle>,
        start_x: i32, start_y: i32,
    ) -> (m: DungeonMap)
        requires
            0 < width <= GRID_DIM_MAX,
            0 < height <= GRID_DIM_MAX,
            forall|i: int|
                0 <= i < rooms@.len() ==> room_placed_in(
                    #[trigger] rooms@[i], width as int, height as int,
                ),
            exists|i: int|
                0 <= i < rooms@.len() && (#[trigger] rooms@[i]).spec_center_x() == start_x as int
                    && rooms@[i].spec_center_y() == start_y as int && (forall|j: int|
                    0 <= j < i ==> (#[trigger] rooms@[j]).spec_center_x() > start_x as int),
            forall|i: int|
                0 <= i < rooms@.len() ==> start_x as int
                    <= (#[trigger] rooms@[i]).spec_center_x(),
        ensures
            m.wf(),
            m.width == width,
            m.height == height,
            m.rooms@ == rooms@,
            player_start_ok(m),
            room_interiors_floor(m),
            carved_before_walls(m),
    {
        proof {
            assert(0 < (width as int) * (height as int)
                <= GRID_DIM_MAX as int * GRID_DIM_MAX as int) by (nonlinear_arith)
                requires
                    0 < width <= GRID_DIM_MAX,
                    0 < height <= GRID_DIM_MAX,
            ;
        }
        let n = (width as i64 * height as i64) as usize;
        let mut tiles: Vec<TileType> = vec![TileType::Void; n];
        let mut i: usize = 0;
        while i < rooms.len()
            invariant
                grid_ok(tiles@, width as int, height as int),
                i <= rooms@.len(),
                forall|j: int, cx: int, cy: int|
                    0 <= j < i && #[trigger] room_contains_cell(rooms@[j], cx, cy)
                        ==> is_floor_at(tiles@, width as int, height as int, cx, cy),
            decreases rooms@.len() - i,
        {
            set_room_tiles(&mut tiles, width, height, &rooms[i]);
            proof {
                assert forall|j: int, cx: int, cy: int|
                    0 <= j < i + 1 && #[trigger] room_contains_cell(rooms@[j], cx, cy)
                    implies is_floor_at(tiles@, width as int, height as int, cx, cy) by {
                    assert(in_bounds(width as int, height as int, cx, cy));
                    lemma_cell_index_bounds(width as int, height as int, cx, cy);
                    lemma_cell_index_inverse(width as int, cx, cy);
                };
            }
            i = i + 1;
        }
        proof {
            // each room's center is one of its cells, hence already floor
            assert forall|i2: int| 0 <= i2 < rooms@.len() implies is_floor_at(
                tiles@,
                width as int,
                height as int,
                (#[trigger] rooms@[i2]).spec_center_x(),
                rooms@[i2].spec_center_y(),
            ) by {
                assert(0 <= rooms@[i2].width as int / 2 <= rooms@[i2].width - 1);
                assert(0 <= rooms@[i2].height as int / 2 <= rooms@[i2].height - 1);
                assert(room_contains_cell(
                    rooms@[i2], rooms@[i2].spec_center_x(), rooms@[i2].spec_center_y(),
                ));
            };
        }
        build_corridors(rng, &mut tiles, width, height, &rooms);
        proof {
            assert forall|j: int, cx: int, cy: int|
                0 <= j < rooms@.len() && #[trigger] room_contains_cell(rooms@[j], cx, cy)
                implies is_floor_at(tiles@, width as int, height as int, cx, cy) by {
                assert(in_bounds(width as int, height as int, cx, cy));
                lemma_cell_index_bounds(width as int, height as int, cx, cy);
                lemma_cell_index_inverse(width as int, cx, cy);
            };
        }
        let ghost pre = tiles@;
        let walled = apply_wall_inference(&tiles, width, height);
        proof {
            assert forall|j: int, cx: int, cy: int|
                0 <= j < rooms@.len() && #[trigger] strictly_inside(rooms@[j], cx, cy)
                implies is_floor_at(walled@, width as int, height as int, cx, cy) by {
                assert(room_contains_cell(rooms@[j], cx, cy));
                assert(room_contains_cell(rooms@[j], cx + 1, cy));
                assert(room_contains_cell(rooms@[j], cx - 1, cy));
                assert(room_contains_cell(rooms@[j], cx, cy + 1));
                assert(room_contains_cell(rooms@[j], cx, cy - 1));
                crate::walls::lemma_floor_kept_when_surrounded(
                    pre, width as int, height as int, cx, cy,
                );
                lemma_cell_index_bounds(width as int, height as int, cx, cy);
                lemma_cell_index_inverse(width as int, cx, cy);
            };
        }
        proof {
            let si = choose|i: int|
                0 <= i < rooms@.len() && (#[trigger] rooms@[i]).spec_center_x() == start_x as int
                    && rooms@[i].spec_center_y() == start_y as int && (forall|j: int|
                    0 <= j < i ==> (#[trigger] rooms@[j]).spec_center_x() > start_x as int);
            assert(3 <= rooms@[si].width as int / 2 <= rooms@[si].width - 3);
            assert(3 <= rooms@[si].height as int / 2 <= rooms@[si].height - 3);
            assert(strictly_inside(rooms@[si], start_x as int, start_y as int));
            assert(0 <= start_x as int <= GRID_DIM_MAX);
            assert(0 <= start_y as int <= GRID_DIM_MAX);
        }
        proof {
            assert(0 <= start_x as int * (crate::TILE_SIZE as int) < 0x80000000
                && 0 <= start_y as int * (crate::TILE_SIZE as int) < 0x80000000)
                by (nonlinear_arith)
                requires
                    0 <= start_x as int <= 16384,
                    0 <= start_y as int <= 16384,
                    crate::TILE_SIZE == 32,
            ;
        }
        let px = start_x * (crate::TILE_SIZE as i32);
        let py = start_y * (crate::TILE_SIZE as i32);
        let m = DungeonMap {
            width,
            height,
            tiles: walled,
            rooms,
            player_start_pos: crate::tile::WorldPoint { x: px, y: py },
        };
        proof {
            let si = choose|i: int|
                0 <= i < m.rooms@.len()
                    && (#[trigger] m.rooms@[i]).spec_center_x() == start_x as int
                    && m.rooms@[i].spec_center_y() == start_y as int && (forall|j: int|
                    0 <= j < i ==> (#[trigger] m.rooms@[j]).spec_center_x() > start_x as int);
            assert(strictly_inside(m.rooms@[si], start_x as int, start_y as int));
            assert(m.player_start_pos.x == m.rooms@[si].spec_center_x()
                * (crate::TILE_SIZE as int));
            assert(m.player_start_pos.y == m.rooms@[si].spec_center_y()
                * (crate::TILE_SIZE as int));
        }
        proof {
            // the grid as it stood after carving witnesses that the
            // corridors were in place before the wall pass
            assert(grid_ok(pre, m.width as int, m.height as int));
            assert(m.tiles@ == crate::walls::walls_applied(pre, m.width as int, m.height as int));
            assert(all_centers_connected(pre, m.width as int, m.height as int, m.rooms@));
            assert(forall|i2: int, cx: int, cy: int|
                0 <= i2 < m.rooms@.len() && #[trigger] room_contains_cell(m.rooms@[i2], cx, cy)
                    ==> is_floor_at(pre, m.width as int, m.height as int, cx, cy));
            assert(carved_before_walls(m));
        }
        m
    }

    /// Generates a dungeon: places `num_rooms` rooms at random, rasterizes
    /// them, carves L-shaped corridors between center-x-sorted neighbors,
    /// and infers the walls. Returns `InvalidParameters` exactly when the
    /// parameters cannot geometrically fit, and `PlacementFailed` only when
    /// room placement does not converge within its attempt budget.
    pub fn generate(
        rng: &mut rand::rngs::StdRng, width: i32, height: i32, num_rooms: usize,
        max_room_width: i32, max_room_height: i32,
    ) -> (r: Result<DungeonMap, GenerationError>)
        ensures
            r == Result::<DungeonMap, GenerationError>::Err(GenerationError::InvalidParameters)
                <==> !params_ok(
                width as int,
                height as int,
                num_rooms as int,
                max_room_width as int,
                max_room_height as int,
            ),
            r matches Ok(m) ==> generated_map_ok(
                m,
                width as int,
                height as int,
                num_rooms as int,
                max_room_width as int,
                max_room_height as int,
            ),
    {
        if !(0 < width && width <= GRID_DIM_MAX && 0 < height && height <= GRID_DIM_MAX
            && max_room_width > MIN_ROOM_DIM && max_room_height > MIN_ROOM_DIM
            && (width as i64) - 1 - (max_room_width as i64) > 1
            && (height as i64) - 1 - (max_room_height as i64) > 1 && num_rooms >= 1) {
            return Err(GenerationError::InvalidParameters);
        }
        if num_rooms > 0x10000000usize {
            proof {
                assert(num_rooms as int * max_room_width as int * max_room_height as int
                    > width as int * height as int) by (nonlinear_arith)
                    requires
                        num_rooms > 0x10000000,
                        6 < max_room_width <= 16384,
                        6 < max_room_height <= 16384,
                        0 < width <= 16384,
                        0 < height <= 16384,
                ;
            }
            return Err(GenerationError::InvalidParameters);
        }
        proof {
            assert(0 <= num_rooms as int * max_room_width as int <= 0x40000000000
                && 0 <= num_rooms as int * max_room_width as int * max_room_height as int
                <= 0x100000000000000) by (nonlinear_arith)
                requires
                    0 < num_rooms <= 0x10000000,
                    6 < max_room_width <= 16384,
                    6 < max_room_height <= 16384,
            ;
            assert(0 < width as int * height as int <= 0x10000000) by (nonlinear_arith)
                requires
                    0 < width <= 16384,
                    0 < height <= 16384,
            ;
        }
        let need = num_rooms as i64 * max_room_width as i64 * max_room_height as i64;
        let area = width as i64 * height as i64;
        if need > area {
            return Err(GenerationError::InvalidParameters);
        }
        match place_rooms(rng, width, height, num_rooms, max_room_width, max_room_height) {
            None => Err(GenerationError::PlacementFailed),
            Some((rooms, start_x, start_y)) => {
                let m = Self::build_from_rooms(rng, width, height, rooms, start_x, start_y);
                Ok(m)
            },
        }
    }

    /// Generates the default-sized map: `MAP_WIDTH × MAP_HEIGHT` cells and
    /// `NUM_ROOMS` rooms under the default size caps.
    pub fn new(rng: &mut rand::rngs::StdRng) -> (r: Result<DungeonMap, GenerationError>)
        ensures
            r matches Ok(m) ==> generated_map_ok(
                m,
                crate::MAP_WIDTH as int,
                crate::MAP_HEIGHT as int,
                crate::NUM_ROOMS as int,
                crate::MAX_ROOM_WIDTH as int,
                crate::MAX_ROOM_HEIGHT as int,
            ),
            !(r == Result::<DungeonMap, GenerationError>::Err(GenerationError::InvalidParameters)),
    {
        Self::generate(
            rng,
            crate::MAP_WIDTH,
            crate::MAP_HEIGHT,
            crate::NUM_ROOMS,
            crate::MAX_ROOM_WIDTH,
            crate::MAX_ROOM_HEIGHT,
        )
    }
}

} // verus!
