//! Wall inference and wall-sprite classification over a tile grid.
//!
//! Generation first lays floors (rooms, corridors) on a void grid, then a
//! single pass turns every void cell that borders a floor into a wall. When a
//! floor cell has exactly two void axis-neighbors, the pass also fills the
//! corner cell those two neighbors span, closing the diagonal gap an
//! axis-only sweep would leave open.

use vstd::prelude::*;
use crate::tile::{TileType, WallType, CornerType};

verus! {

/// Largest grid dimension the library accepts, so cell indices fit `i32`.
pub const GRID_DIM_MAX: i32 = 16384;

/// A tile sequence of exactly `width × height` cells, row-major.
pub open spec fn grid_ok(t: Seq<TileType>, w: int, h: int) -> bool {
    &&& 0 < w <= GRID_DIM_MAX
    &&& 0 < h <= GRID_DIM_MAX
    &&& t.len() == w * h
}

/// Whether `(x, y)` names a cell of a `w × h` grid.
pub open spec fn in_bounds(w: int, h: int, x: int, y: int) -> bool {
    0 <= x < w && 0 <= y < h
}

/// The tile at an in-bounds cell.
pub open spec fn tile_of(t: Seq<TileType>, w: int, x: int, y: int) -> TileType {
    t[y * w + x]
}

/// In-bounds and `Void`.
pub open spec fn is_void_at(t: Seq<TileType>, w: int, h: int, x: int, y: int) -> bool {
    in_bounds(w, h, x, y) && tile_of(t, w, x, y) == TileType::Void
}

/// In-bounds and `Floor`.
pub open spec fn is_floor_at(t: Seq<TileType>, w: int, h: int, x: int, y: int) -> bool {
    in_bounds(w, h, x, y) && tile_of(t, w, x, y) == TileType::Floor
}

/// A void cell with a floor on at least one of its four sides: the plain
/// case that the wall pass fills.
pub open spec fn void_adjacent_to_floor(t: Seq<TileType>, w: int, h: int, x: int, y: int) -> bool {
    &&& is_void_at(t, w, h, x, y)
    &&& {
        ||| is_floor_at(t, w, h, x + 1, y)
        ||| is_floor_at(t, w, h, x - 1, y)
        ||| is_floor_at(t, w, h, x, y + 1)
        ||| is_floor_at(t, w, h, x, y - 1)
    }
}

/// How many of the four axis-neighbors of `(x, y)` are in-bounds void cells.
pub open spec fn void_neighbor_count(t: Seq<TileType>, w: int, h: int, x: int, y: int) -> int {
    (if is_void_at(t, w, h, x + 1, y) { 1int } else { 0int })
        + (if is_void_at(t, w, h, x - 1, y) { 1int } else { 0int })
        + (if is_void_at(t, w, h, x, y + 1) { 1int } else { 0int })
        + (if is_void_at(t, w, h, x, y - 1) { 1int } else { 0int })
}

/// The x coordinate the corner fill takes from a floor cell's void
/// neighbors; the left neighbor wins when both sides are void.
pub open spec fn corner_x(t: Seq<TileType>, w: int, h: int, x: int, y: int) -> int {
    if is_void_at(t, w, h, x - 1, y) {
        x - 1
    } else if is_void_at(t, w, h, x + 1, y) {
        x + 1
    } else {
        x
    }
}

/// The y coordinate the corner fill takes; the lower neighbor wins when
/// both are void.
pub open spec fn corner_y(t: Seq<TileType>, w: int, h: int, x: int, y: int) -> int {
    if is_void_at(t, w, h, x, y - 1) {
        y - 1
    } else if is_void_at(t, w, h, x, y + 1) {
        y + 1
    } else {
        y
    }
}

/// The floor cell `(fx, fy)` has exactly two void axis-neighbors and its
/// corner fill lands on `(x, y)`.
pub open spec fn is_corner_source(
    t: Seq<TileType>, w: int, h: int, fx: int, fy: int, x: int, y: int,
) -> bool {
    &&& is_floor_at(t, w, h, fx, fy)
    &&& void_neighbor_count(t, w, h, fx, fy) == 2
    &&& corner_x(t, w, h, fx, fy) == x
    &&& corner_y(t, w, h, fx, fy) == y
}

/// Some floor cell's corner fill lands on `(x, y)`.
pub open spec fn is_corner_gap(t: Seq<TileType>, w: int, h: int, x: int, y: int) -> bool {
    exists|fx: int, fy: int| is_corner_source(t, w, h, fx, fy, x, y)
}

/// Whether the wall pass turns `(x, y)` into a wall.
pub open spec fn becomes_wall(t: Seq<TileType>, w: int, h: int, x: int, y: int) -> bool {
    void_adjacent_to_floor(t, w, h, x, y) || is_corner_gap(t, w, h, x, y)
}

/// The grid after the wall pass: walls where [`becomes_wall`] holds, the old
/// tile everywhere else.
pub open spec fn walls_applied(t: Seq<TileType>, w: int, h: int) -> Seq<TileType> {
    Seq::new(t.len(), |i: int|
        if becomes_wall(t, w, h, i % w, i / w) { TileType::Wall } else { t[i] })
}

/// A cell's row-major index lies inside the grid.
pub proof fn lemma_cell_index_bounds(w: int, h: int, x: int, y: int)
    by (nonlinear_arith)
    requires
        0 < w <= GRID_DIM_MAX,
        0 < h <= GRID_DIM_MAX,
        in_bounds(w, h, x, y),
    ensures
        0 <= y * w,
        y * w + x < w * h,
        w * h <= GRID_DIM_MAX * GRID_DIM_MAX,
{
}

/// Row-major indexing is inverted by division and remainder.
pub proof fn lemma_cell_index_inverse(w: int, x: int, y: int)
    requires
        0 < w,
        0 <= x < w,
        0 <= y,
    ensures
        (y * w + x) % w == x,
        (y * w + x) / w == y,
{
    vstd::arithmetic::div_mod::lemma_fundamental_div_mod_converse(y * w + x, w, y, x);
}

/// The tile at an in-bounds cell.
fn read_tile(tiles: &Vec<TileType>, w: i32, h: i32, x: i32, y: i32) -> (r: TileType)
    requires
        grid_ok(tiles@, w as int, h as int),
        in_bounds(w as int, h as int, x as int, y as int),
    ensures
        r == tile_of(tiles@, w as int, x as int, y as int),
{
    proof {
        lemma_cell_index_bounds(w as int, h as int, x as int, y as int);
    }
    tiles[(y * w + x) as usize]
}

/// The tile at `(x, y)`, or `Void` for coordinates outside the grid.
fn read_tile_or_void(tiles: &Vec<TileType>, w: i32, h: i32, x: i32, y: i32) -> (r: TileType)
    requires
        grid_ok(tiles@, w as int, h as int),
        -2 <= x <= GRID_DIM_MAX + 1,
        -2 <= y <= GRID_DIM_MAX + 1,
    ensures
        in_bounds(w as int, h as int, x as int, y as int)
            ==> r == tile_of(tiles@, w as int, x as int, y as int),
        !in_bounds(w as int, h as int, x as int, y as int) ==> r == TileType::Void,
{
    if 0 <= x && x < w && 0 <= y && y < h {
        read_tile(tiles, w, h, x, y)
    } else {
        TileType::Void
    }
}

/// Whether `(x, y)` is an in-bounds void cell.
fn check_void(tiles: &Vec<TileType>, w: i32, h: i32, x: i32, y: i32) -> (r: bool)
    requires
        grid_ok(tiles@, w as int, h as int),
        -2 <= x <= GRID_DIM_MAX + 1,
        -2 <= y <= GRID_DIM_MAX + 1,
    ensures
        r == is_void_at(tiles@, w as int, h as int, x as int, y as int),
{
    if 0 <= x && x < w && 0 <= y && y < h {
        read_tile(tiles, w, h, x, y) == TileType::Void
    } else {
        false
    }
}

/// Whether `(x, y)` is an in-bounds floor cell.
fn check_floor(tiles: &Vec<TileType>, w: i32, h: i32, x: i32, y: i32) -> (r: bool)
    requires
        grid_ok(tiles@, w as int, h as int),
        -2 <= x <= GRID_DIM_MAX + 1,
        -2 <= y <= GRID_DIM_MAX + 1,
    ensures
        r == is_floor_at(tiles@, w as int, h as int, x as int, y as int),
{
    if 0 <= x && x < w && 0 <= y && y < h {
        read_tile(tiles, w, h, x, y) == TileType::Floor
    } else {
        false
    }
}

/// Count of in-bounds void cells among the four axis-neighbors.
fn count_void_neighbors(tiles: &Vec<TileType>, w: i32, h: i32, x: i32, y: i32) -> (r: i32)
    requires
        grid_ok(tiles@, w as int, h as int),
        -1 <= x <= GRID_DIM_MAX,
        -1 <= y <= GRID_DIM_MAX,
    ensures
        r == void_neighbor_count(tiles@, w as int, h as int, x as int, y as int),
{
    let mut c: i32 = 0;
    if check_void(tiles, w, h, x + 1, y) {
        c = c + 1;
    }
    if check_void(tiles, w, h, x - 1, y) {
        c = c + 1;
    }
    if check_void(tiles, w, h, x, y + 1) {
        c = c + 1;
    }
    if check_void(tiles, w, h, x, y - 1) {
        c = c + 1;
    }
    c
}

/// Whether the floor cell `(fx, fy)` exists and sends its corner fill to
/// `(x, y)`.
fn check_corner_source(
    tiles: &Vec<TileType>, w: i32, h: i32, fx: i32, fy: i32, x: i32, y: i32,
) -> (r: bool)
    requires
        grid_ok(tiles@, w as int, h as int),
        -1 <= fx <= GRID_DIM_MAX,
        -1 <= fy <= GRID_DIM_MAX,
    ensures
        r == is_corner_source(tiles@, w as int, h as int, fx as int, fy as int, x as int, y as int),
{
    if !check_floor(tiles, w, h, fx, fy) {
        return false;
    }
    if count_void_neighbors(tiles, w, h, fx, fy) != 2 {
        return false;
    }
    let cx = if check_void(tiles, w, h, fx - 1, fy) {
        fx - 1
    } else if check_void(tiles, w, h, fx + 1, fy) {
        fx + 1
    } else {
        fx
    };
    let cy = if check_void(tiles, w, h, fx, fy - 1) {
        fy - 1
    } else if check_void(tiles, w, h, fx, fy + 1) {
        fy + 1
    } else {
        fy
    };
    cx == x && cy == y
}

/// A corner fill never lands on its own floor cell, and never farther than
/// one cell away from it.
pub proof fn lemma_corner_source_near(
    t: Seq<TileType>, w: int, h: int, fx: int, fy: int, x: int, y: int,
)
    requires
        is_corner_source(t, w, h, fx, fy, x, y),
    ensures
        fx - 1 <= x <= fx + 1,
        fy - 1 <= y <= fy + 1,
        !(fx == x && fy == y),
{
    if corner_x(t, w, h, fx, fy) == fx && corner_y(t, w, h, fx, fy) == fy {
        assert(void_neighbor_count(t, w, h, fx, fy) == 0);
    }
}

/// Whether the wall pass turns `(x, y)` into a wall: either the plain case
/// (a void cell beside a floor) or a corner fill from one of the eight
/// surrounding cells.
fn cell_becomes_wall(tiles: &Vec<TileType>, w: i32, h: i32, x: i32, y: i32) -> (r: bool)
    requires
        grid_ok(tiles@, w as int, h as int),
        in_bounds(w as int, h as int, x as int, y as int),
    ensures
        r == becomes_wall(tiles@, w as int, h as int, x as int, y as int),
{
    if check_void(tiles, w, h, x, y) {
        if check_floor(tiles, w, h, x + 1, y) || check_floor(tiles, w, h, x - 1, y)
            || check_floor(tiles, w, h, x, y + 1) || check_floor(tiles, w, h, x, y - 1) {
            return true;
        }
    }
    if check_corner_source(tiles, w, h, x - 1, y - 1, x, y) {
        return true;
    }
    if check_corner_source(tiles, w, h, x, y - 1, x, y) {
        return true;
    }
    if check_corner_source(tiles, w, h, x + 1, y - 1, x, y) {
        return true;
    }
    if check_corner_source(tiles, w, h, x - 1, y, x, y) {
        return true;
    }
    if check_corner_source(tiles, w, h, x + 1, y, x, y) {
        return true;
    }
    if check_corner_source(tiles, w, h, x - 1, y + 1, x, y) {
        return true;
    }
    if check_corner_source(tiles, w, h, x, y + 1, x, y) {
        return true;
    }
    if check_corner_source(tiles, w, h, x + 1, y + 1, x, y) {
        return true;
    }
    proof {
        let tw = w as int;
        let th = h as int;
        let tx = x as int;
        let ty = y as int;
        if is_corner_gap(tiles@, tw, th, tx, ty) {
            let (fx, fy) = choose|fx: int, fy: int|
                is_corner_source(tiles@, tw, th, fx, fy, tx, ty);
            lemma_corner_source_near(tiles@, tw, th, fx, fy, tx, ty);
            assert(false);
        }
    }
    false
}

/// The wall-inference pass: returns the grid with every void cell that
/// borders a floor turned into a wall, plus the corner fills.
pub fn apply_wall_inference(tiles: &Vec<TileType>, width: i32, height: i32) -> (r: Vec<TileType>)
    requires
        grid_ok(tiles@, width as int, height as int),
    ensures
        r@ == walls_applied(tiles@, width as int, height as int),
        r@.len() == tiles@.len(),
{
    let ghost target = walls_applied(tiles@, width as int, height as int);
    let mut out: Vec<TileType> = Vec::new();
    let mut y: i32 = 0;
    while y < height
        invariant
            grid_ok(tiles@, width as int, height as int),
            target == walls_applied(tiles@, width as int, height as int),
            0 <= y <= height,
            out@.len() == y * width,
            forall|i: int| 0 <= i < out@.len() ==> out@[i] == target[i],
        decreases height - y,
    {
        let mut x: i32 = 0;
        while x < width
            invariant
                grid_ok(tiles@, width as int, height as int),
                target == walls_applied(tiles@, width as int, height as int),
                0 <= y < height,
                0 <= x <= width,
                out@.len() == y * width + x,
                forall|i: int| 0 <= i < out@.len() ==> out@[i] == target[i],
            decreases width - x,
        {
            proof {
                lemma_cell_index_bounds(width as int, height as int, x as int, y as int);
                lemma_cell_index_inverse(width as int, x as int, y as int);
            }
            let t = if cell_becomes_wall(tiles, width, height, x, y) {
                TileType::Wall
            } else {
                read_tile(tiles, width, height, x, y)
            };
            out.push(t);
            x = x + 1;
        }
        proof {
            assert(y * width + width == (y + 1) * width) by (nonlinear_arith);
        }
        y = y + 1;
    }
    proof {
        assert((height as int) * (width as int) == (width as int) * (height as int))
            by (nonlinear_arith);
        assert(out@ =~= target);
    }
    out
}

/// A floor cell whose four axis-neighbors are all floors survives the wall
/// pass: neither the plain case nor any corner fill can reach it.
pub proof fn lemma_floor_kept_when_surrounded(t: Seq<TileType>, w: int, h: int, x: int, y: int)
    requires
        grid_ok(t, w, h),
        in_bounds(w, h, x, y),
        tile_of(t, w, x, y) == TileType::Floor,
        is_floor_at(t, w, h, x + 1, y),
        is_floor_at(t, w, h, x - 1, y),
        is_floor_at(t, w, h, x, y + 1),
        is_floor_at(t, w, h, x, y - 1),
    ensures
        !becomes_wall(t, w, h, x, y),
        walls_applied(t, w, h)[y * w + x] == TileType::Floor,
{
    lemma_cell_index_bounds(w, h, x, y);
    lemma_cell_index_inverse(w, x, y);
    if is_corner_gap(t, w, h, x, y) {
        let (fx, fy) = choose|fx: int, fy: int| is_corner_source(t, w, h, fx, fy, x, y);
        lemma_corner_source_near(t, w, h, fx, fy, x, y);
        if fx == x {
            // The fill came straight up or down, so (x, y) would have to be
            // one of the source's void neighbors; it is a floor.
            assert(is_void_at(t, w, h, fx, y));
            assert(false);
        } else if fy == y {
            assert(is_void_at(t, w, h, x, fy));
            assert(false);
        } else {
            // A diagonal fill requires the shared axis cell (x, fy) to be
            // void, but that cell is an axis-neighbor of (x, y), a floor.
            assert(is_void_at(t, w, h, x, fy));
            assert(false);
        }
    }
}

/// The wall sprite that a wall cell's four neighbors select, out-of-bounds
/// neighbors counting as void. Outer corners (void above or below plus void
/// to the side) take priority over inner corners (wall above or below with a
/// floor on one side), which take priority over the plain edges.
pub open spec fn spec_wall_type(t: Seq<TileType>, w: int, h: int, x: int, y: int) -> WallType {
    let up = neighbor_or_void(t, w, h, x, y + 1);
    let down = neighbor_or_void(t, w, h, x, y - 1);
    let left = neighbor_or_void(t, w, h, x - 1, y);
    let right = neighbor_or_void(t, w, h, x + 1, y);
    if up == TileType::Void {
        if left == TileType::Void {
            WallType::Corner(CornerType::UpperLeft)
        } else if right == TileType::Void {
            WallType::Corner(CornerType::UpperRight)
        } else {
            WallType::Top
        }
    } else if up == TileType::Wall && left == TileType::Wall && right == TileType::Floor {
        WallType::Corner(CornerType::InnerUpperLeft)
    } else if up == TileType::Wall && left == TileType::Floor && right == TileType::Wall {
        WallType::Corner(CornerType::InnerUpperRight)
    } else if down == TileType::Void {
        if left == TileType::Void {
            WallType::Corner(CornerType::LowerLeft)
        } else if right == TileType::Void {
            WallType::Corner(CornerType::LowerRight)
        } else {
            WallType::Bottom
        }
    } else if down == TileType::Wall && left == TileType::Floor && right == TileType::Wall {
        WallType::Corner(CornerType::InnerLowerLeft)
    } else if down == TileType::Wall && left == TileType::Wall && right == TileType::Floor {
        WallType::Corner(CornerType::InnerLowerRight)
    } else if right == TileType::Floor {
        WallType::Left
    } else {
        WallType::Right
    }
}

/// A neighbor's tile, with everything outside the grid read as void.
pub open spec fn neighbor_or_void(t: Seq<TileType>, w: int, h: int, x: int, y: int) -> TileType {
    if in_bounds(w, h, x, y) {
        tile_of(t, w, x, y)
    } else {
        TileType::Void
    }
}

/// The wall-sprite decision tree over the four axis-neighbors.
pub(crate) fn wall_type_of(tiles: &Vec<TileType>, w: i32, h: i32, x: i32, y: i32) -> (r: WallType)
    requires
        grid_ok(tiles@, w as int, h as int),
        in_bounds(w as int, h as int, x as int, y as int),
    ensures
        r == spec_wall_type(tiles@, w as int, h as int, x as int, y as int),
{
    let up = read_tile_or_void(tiles, w, h, x, y + 1);
    let down = read_tile_or_void(tiles, w, h, x, y - 1);
    let left = read_tile_or_void(tiles, w, h, x - 1, y);
    let right = read_tile_or_void(tiles, w, h, x + 1, y);
    if up == TileType::Void {
        if left == TileType::Void {
            WallType::Corner(CornerType::UpperLeft)
        } else if right == TileType::Void {
            WallType::Corner(CornerType::UpperRight)
        } else {
            WallType::Top
        }
    } else if up == TileType::Wall && left == TileType::Wall && right == TileType::Floor {
        WallType::Corner(CornerType::InnerUpperLeft)
    } else if up == TileType::Wall && left == TileType::Floor && right == TileType::Wall {
        WallType::Corner(CornerType::InnerUpperRight)
    } else if down == TileType::Void {
        if left == TileType::Void {
            WallType::Corner(CornerType::LowerLeft)
        } else if right == TileType::Void {
            WallType::Corner(CornerType::LowerRight)
        } else {
            WallType::Bottom
        }
    } else if down == TileType::Wall && left == TileType::Floor && right == TileType::Wall {
        WallType::Corner(CornerType::InnerLowerLeft)
    } else if down == TileType::Wall && left == TileType::Wall && right == TileType::Floor {
        WallType::Corner(CornerType::InnerLowerRight)
    } else if right == TileType::Floor {
        WallType::Left
    } else {
        WallType::Right
    }
}

} // verus!
