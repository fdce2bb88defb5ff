//! Reachability across floor cells, decided by a verified flood fill.
//!
//! `floor_path_exists` returns true exactly when a path of edge-adjacent
//! floor cells joins two cells, so a caller can check that corridor carving
//! left no room isolated.

use vstd::prelude::*;
use crate::map::DungeonMap;
use crate::tile::TileType;
use crate::walls::{
    grid_ok, in_bounds, is_floor_at, lemma_cell_index_bounds, lemma_cell_index_inverse,
    GRID_DIM_MAX,
};

verus! {

/// Two cells sharing an edge.
pub open spec fn adjacent(ax: int, ay: int, bx: int, by: int) -> bool {
    ||| (ax == bx && (ay == by + 1 || ay == by - 1))
    ||| (ay == by && (ax == bx + 1 || ax == bx - 1))
}

/// A floor path: a nonempty cell sequence of in-bounds floor cells, each
/// step moving to an edge-adjacent cell.
pub open spec fn floor_path(t: Seq<TileType>, w: int, h: int, p: Seq<(int, int)>) -> bool {
    &&& p.len() > 0
    &&& forall|i: int| 0 <= i < p.len() ==> is_floor_at(t, w, h, (#[trigger] p[i]).0, p[i].1)
    &&& forall|i: int|
        0 <= i < p.len() - 1 ==> adjacent((#[trigger] p[i]).0, p[i].1, p[i + 1].0, p[i + 1].1)
}

/// Cell `(bx, by)` can be reached from `(ax, ay)` across floor cells.
pub open spec fn floor_reachable(
    t: Seq<TileType>, w: int, h: int, ax: int, ay: int, bx: int, by: int,
) -> bool {
    exists|p: Seq<(int, int)>|
        #[trigger] floor_path(t, w, h, p) && p.first() == (ax, ay) && p.last() == (bx, by)
}

/// A floor cell reaches itself.
pub proof fn lemma_floor_reachable_refl(t: Seq<TileType>, w: int, h: int, x: int, y: int)
    requires
        is_floor_at(t, w, h, x, y),
    ensures
        floor_reachable(t, w, h, x, y, x, y),
{
    let p: Seq<(int, int)> = seq![(x, y)];
    assert(floor_path(t, w, h, p));
    assert(p.first() == (x, y) && p.last() == (x, y));
}

/// Reachability extends across one step onto an adjacent floor cell.
pub proof fn lemma_floor_reachable_step(
    t: Seq<TileType>, w: int, h: int, ax: int, ay: int, cx: int, cy: int, dx: int, dy: int,
)
    requires
        floor_reachable(t, w, h, ax, ay, cx, cy),
        adjacent(cx, cy, dx, dy),
        is_floor_at(t, w, h, dx, dy),
    ensures
        floor_reachable(t, w, h, ax, ay, dx, dy),
{
    let p = choose|p: Seq<(int, int)>|
        #[trigger] floor_path(t, w, h, p) && p.first() == (ax, ay) && p.last() == (cx, cy);
    let q = p.push((dx, dy));
    assert forall|i: int| 0 <= i < q.len() implies is_floor_at(
        t, w, h, (#[trigger] q[i]).0, q[i].1,
    ) by {
        if i < p.len() {
            assert(q[i] == p[i]);
        }
    };
    assert forall|i: int|
        0 <= i < q.len() - 1 implies adjacent((#[trigger] q[i]).0, q[i].1, q[i + 1].0, q[i + 1].1)
    by {
        if i < p.len() - 1 {
            assert(q[i] == p[i] && q[i + 1] == p[i + 1]);
        } else {
            assert(q[i] == p.last() && q[i + 1] == (dx, dy));
        }
    };
    assert(floor_path(t, w, h, q));
    assert(q.first() == (ax, ay) && q.last() == (dx, dy));
}

/// The in-bounds floor neighbors of a cell are all marked.
pub open spec fn neighbors_visited(
    t: Seq<TileType>, w: int, h: int, visited: Seq<bool>, x: int, y: int,
) -> bool {
    &&& is_floor_at(t, w, h, x + 1, y) ==> visited[y * w + (x + 1)]
    &&& is_floor_at(t, w, h, x - 1, y) ==> visited[y * w + (x - 1)]
    &&& is_floor_at(t, w, h, x, y + 1) ==> visited[(y + 1) * w + x]
    &&& is_floor_at(t, w, h, x, y - 1) ==> visited[(y - 1) * w + x]
}

/// Every marked cell is a floor the start reaches.
pub open spec fn marks_sound(
    t: Seq<TileType>, w: int, h: int, ax: int, ay: int, visited: Seq<bool>,
) -> bool {
    forall|x: int, y: int|
        in_bounds(w, h, x, y) && #[trigger] visited[y * w + x] ==> is_floor_at(t, w, h, x, y)
            && floor_reachable(t, w, h, ax, ay, x, y)
}

/// Every cell of the work stack is a marked in-bounds floor cell.
pub open spec fn stack_ok(
    t: Seq<TileType>, w: int, h: int, stack: Seq<(i32, i32)>, visited: Seq<bool>,
) -> bool {
    forall|k: int|
        0 <= k < stack.len() ==> {
            let c = #[trigger] stack[k];
            &&& in_bounds(w, h, c.0 as int, c.1 as int)
            &&& is_floor_at(t, w, h, c.0 as int, c.1 as int)
            &&& visited[c.1 as int * w + c.0 as int]
        }
}

/// Whether the cell sits somewhere on the work stack.
pub open spec fn on_stack(stack: Seq<(i32, i32)>, x: int, y: int) -> bool {
    exists|k: int| 0 <= k < stack.len() && (#[trigger] stack[k]).0 == x && stack[k].1 == y
}

/// Every marked cell that is off the stack already has its floor neighbors
/// marked; with an empty stack the marking is closed under adjacency.
pub open spec fn marks_closed(
    t: Seq<TileType>, w: int, h: int, stack: Seq<(i32, i32)>, visited: Seq<bool>,
) -> bool {
    forall|x: int, y: int|
        in_bounds(w, h, x, y) && #[trigger] visited[y * w + x] && !on_stack(stack, x, y)
            ==> neighbors_visited(t, w, h, visited, x, y)
}

/// How many cells are marked.
pub open spec fn count_marked(s: Seq<bool>) -> int
    decreases s.len(),
{
    if s.len() == 0 {
        0
    } else {
        count_marked(s.drop_last()) + if s.last() {
            1int
        } else {
            0int
        }
    }
}

/// The mark count never exceeds the cell count.
pub proof fn lemma_count_marked_le_len(s: Seq<bool>)
    ensures
        0 <= count_marked(s) <= s.len(),
    decreases s.len(),
{
    if s.len() > 0 {
        lemma_count_marked_le_len(s.drop_last());
    }
}

/// Marking one unmarked cell raises the count by one.
pub proof fn lemma_count_marked_update(s: Seq<bool>, i: int)
    requires
        0 <= i < s.len(),
        !s[i],
    ensures
        count_marked(s.update(i, true)) == count_marked(s) + 1,
    decreases s.len(),
{
    let s2 = s.update(i, true);
    if i == s.len() - 1 {
        assert(s2.drop_last() =~= s.drop_last());
    } else {
        assert(s2.drop_last() =~= s.drop_last().update(i, true));
        lemma_count_marked_update(s.drop_last(), i);
    }
}

/// One visit step only adds marks together with a matching stack entry, so
/// a cell marked and off the stack afterward was marked and off the stack
/// before.
proof fn lemma_closed_step(
    t: Seq<TileType>, w: int, h: int, stack1: Seq<(i32, i32)>, visited1: Seq<bool>,
    stack2: Seq<(i32, i32)>, visited2: Seq<bool>, nx: i32, ny: i32,
)
    requires
        grid_ok(t, w, h),
        visited1.len() == w * h,
        (visited2 == visited1 && stack2 == stack1) || (in_bounds(w, h, nx as int, ny as int)
            && visited2 == visited1.update((ny as int) * w + nx as int, true) && stack2
            == stack1.push((nx, ny))),
    ensures
        forall|x: int, y: int|
            in_bounds(w, h, x, y) && #[trigger] visited2[y * w + x] && !on_stack(stack2, x, y)
                ==> visited1[y * w + x] && !on_stack(stack1, x, y),
{
    assert forall|x: int, y: int|
        in_bounds(w, h, x, y) && #[trigger] visited2[y * w + x] && !on_stack(stack2, x, y)
        implies visited1[y * w + x] && !on_stack(stack1, x, y) by {
        lemma_cell_index_bounds(w, h, x, y);
        lemma_cell_index_inverse(w, x, y);
        if !(visited2 == visited1 && stack2 == stack1) {
            lemma_cell_index_bounds(w, h, nx as int, ny as int);
            lemma_cell_index_inverse(w, nx as int, ny as int);
            if y * w + x == (ny as int) * w + nx as int {
                assert(x == nx as int && y == ny as int);
                assert((#[trigger] stack2[stack2.len() - 1]).0 == x && stack2[stack2.len() - 1].1
                    == y);
                assert(false);
            }
            if on_stack(stack1, x, y) {
                let k = choose|k: int|
                    0 <= k < stack1.len() && (#[trigger] stack1[k]).0 == x && stack1[k].1 == y;
                assert((#[trigger] stack2[k]).0 == x && stack2[k].1 == y);
                assert(false);
            }
        }
    };
}

/// Having all floor neighbors marked is kept when the marking only grows.
proof fn lemma_neighbors_visited_monotone(
    t: Seq<TileType>, w: int, h: int, v1: Seq<bool>, v2: Seq<bool>, x: int, y: int,
)
    requires
        grid_ok(t, w, h),
        in_bounds(w, h, x, y),
        v1.len() == w * h,
        v2.len() == w * h,
        forall|k: int| 0 <= k < v1.len() && v1[k] ==> v2[k],
        neighbors_visited(t, w, h, v1, x, y),
    ensures
        neighbors_visited(t, w, h, v2, x, y),
{
    if is_floor_at(t, w, h, x + 1, y) {
        lemma_cell_index_bounds(w, h, x + 1, y);
    }
    if is_floor_at(t, w, h, x - 1, y) {
        lemma_cell_index_bounds(w, h, x - 1, y);
    }
    if is_floor_at(t, w, h, x, y + 1) {
        lemma_cell_index_bounds(w, h, x, y + 1);
    }
    if is_floor_at(t, w, h, x, y - 1) {
        lemma_cell_index_bounds(w, h, x, y - 1);
    }
}

/// Any floor path from the start stays inside a closed marking that holds
/// the start, so in particular its last cell is marked.
proof fn lemma_path_stays_marked(
    t: Seq<TileType>, w: int, h: int, ax: int, ay: int, visited: Seq<bool>, p: Seq<(int, int)>,
)
    requires
        grid_ok(t, w, h),
        visited.len() == w * h,
        in_bounds(w, h, ax, ay),
        visited[ay * w + ax],
        forall|x: int, y: int|
            in_bounds(w, h, x, y) && #[trigger] visited[y * w + x] ==> neighbors_visited(
                t, w, h, visited, x, y,
            ),
        floor_path(t, w, h, p),
        p.first() == (ax, ay),
    ensures
        visited[p.last().1 * w + p.last().0],
    decreases p.len(),
{
    if p.len() == 1 {
        assert(p.last() == (ax, ay));
    } else {
        let q = p.drop_last();
        assert forall|i: int| 0 <= i < q.len() implies is_floor_at(
            t, w, h, (#[trigger] q[i]).0, q[i].1,
        ) by {
            assert(q[i] == p[i]);
        };
        assert forall|i: int|
            0 <= i < q.len() - 1 implies adjacent(
                (#[trigger] q[i]).0, q[i].1, q[i + 1].0, q[i + 1].1,
            )
        by {
            assert(q[i] == p[i] && q[i + 1] == p[i + 1]);
        };
        assert(floor_path(t, w, h, q));
        assert(q.first() == p.first());
        lemma_path_stays_marked(t, w, h, ax, ay, visited, q);
        let c = q.last();
        let d = p.last();
        assert(c == p[p.len() - 2] && d == p[p.len() - 1]);
        assert(adjacent(c.0, c.1, d.0, d.1));
        assert(is_floor_at(t, w, h, c.0, c.1) && is_floor_at(t, w, h, d.0, d.1));
        assert(neighbors_visited(t, w, h, visited, c.0, c.1));
    }
}

impl DungeonMap {
    /// Whether a path of edge-adjacent floor cells joins the two cells; a
    /// depth-first flood fill.
    #[verifier::loop_isolation(false)]
    #[verifier::rlimit(60)]
    pub fn floor_path_exists(&self, from_x: i32, from_y: i32, to_x: i32, to_y: i32) -> (r: bool)
        requires
            self.wf(),
            in_bounds(self.width as int, self.height as int, from_x as int, from_y as int),
            in_bounds(self.width as int, self.height as int, to_x as int, to_y as int),
        ensures
            r == floor_reachable(
                self.tiles@,
                self.width as int,
                self.height as int,
                from_x as int,
                from_y as int,
                to_x as int,
                to_y as int,
            ),
    {
        let w = self.width;
        let h = self.height;
        let ghost t = self.tiles@;
        let ghost wi = w as int;
        let ghost hi = h as int;
        let ghost ax = from_x as int;
        let ghost ay = from_y as int;
        proof {
            lemma_cell_index_bounds(wi, hi, ax, ay);
            lemma_cell_index_inverse(wi, from_x as int, from_y as int);
            lemma_cell_index_bounds(wi, hi, to_x as int, to_y as int);
            lemma_cell_index_inverse(wi, to_x as int, to_y as int);
        }
        let start_idx = (from_y * w + from_x) as usize;
        if self.tiles[start_idx] != TileType::Floor {
            proof {
                if floor_reachable(t, wi, hi, ax, ay, to_x as int, to_y as int) {
                    let p = choose|p: Seq<(int, int)>|
                        #[trigger] floor_path(t, wi, hi, p) && p.first() == (ax, ay)
                            && p.last() == (to_x as int, to_y as int);
                    assert(is_floor_at(t, wi, hi, (p[0]).0, p[0].1));
                    assert(false);
                }
            }
            return false;
        }
        proof {
            assert(0 < wi * hi <= GRID_DIM_MAX as int * GRID_DIM_MAX as int) by (nonlinear_arith)
                requires
                    0 < wi <= GRID_DIM_MAX,
                    0 < hi <= GRID_DIM_MAX,
            ;
        }
        let n = (w as i64 * h as i64) as usize;
        let mut visited: Vec<bool> = vec![false; n];
        let mut stack: Vec<(i32, i32)> = Vec::new();
        let ghost v0 = visited@;
        proof {
            lemma_count_all_unmarked(v0);
            lemma_count_marked_update(v0, start_idx as int);
            lemma_floor_reachable_refl(t, wi, hi, ax, ay);
        }
        visited.set(start_idx, true);
        stack.push((from_x, from_y));
        proof {
            assert(visited@ == v0.update(start_idx as int, true));
            assert(count_marked(visited@) == 1);
            assert forall|x: int, y: int|
                in_bounds(wi, hi, x, y) && #[trigger] visited@[y * wi + x] implies is_floor_at(
                t, wi, hi, x, y,
            ) && floor_reachable(t, wi, hi, ax, ay, x, y) by {
                lemma_cell_index_bounds(wi, hi, x, y);
                lemma_cell_index_inverse(wi, x, y);
            };
            assert((#[trigger] stack@[0]).0 == ax && stack@[0].1 == ay);
            assert forall|x: int, y: int|
                in_bounds(wi, hi, x, y) && #[trigger] visited@[y * wi + x] && !on_stack(
                    stack@, x, y,
                ) implies neighbors_visited(t, wi, hi, visited@, x, y) by {
                lemma_cell_index_bounds(wi, hi, x, y);
                lemma_cell_index_inverse(wi, x, y);
                assert(x == ax && y == ay);
                assert(false);
            };
        }
        while stack.len() != 0
            invariant
                visited@.len() == wi * hi,
                stack_ok(t, wi, hi, stack@, visited@),
                marks_sound(t, wi, hi, ax, ay, visited@),
                marks_closed(t, wi, hi, stack@, visited@),
                visited@[ay * wi + ax],
                0 <= count_marked(visited@) <= visited@.len(),
            decreases visited@.len() - count_marked(visited@) + stack@.len(),
        {
            let ghost stack0 = stack@;
            let ghost visited0 = visited@;
            let c = match stack.pop() {
                Some(c) => c,
                None => {
                    proof {
                        assert(false);
                    }
                    unreached()
                },
            };
            let cx = c.0;
            let cy = c.1;
            proof {
                assert(stack0[stack0.len() - 1] == c);
            }
            let ghost base = stack@;
            let right_x = cx + 1;
            let left_x = cx - 1;
            let up_y = cy + 1;
            let down_y = cy - 1;
            visit_neighbor(&self.tiles, w, h, from_x, from_y, &mut visited, &mut stack, cx, cy, right_x, cy);
            let ghost s1 = stack@;
            let ghost vv1 = visited@;
            visit_neighbor(&self.tiles, w, h, from_x, from_y, &mut visited, &mut stack, cx, cy, left_x, cy);
            let ghost s2 = stack@;
            let ghost vv2 = visited@;
            visit_neighbor(&self.tiles, w, h, from_x, from_y, &mut visited, &mut stack, cx, cy, cx, up_y);
            let ghost s3 = stack@;
            let ghost vv3 = visited@;
            visit_neighbor(&self.tiles, w, h, from_x, from_y, &mut visited, &mut stack, cx, cy, cx, down_y);
            proof {
                lemma_closed_step(t, wi, hi, base, visited0, s1, vv1, right_x, cy);
                lemma_closed_step(t, wi, hi, s1, vv1, s2, vv2, left_x, cy);
                lemma_closed_step(t, wi, hi, s2, vv2, s3, vv3, cx, up_y);
                lemma_closed_step(t, wi, hi, s3, vv3, stack@, visited@, cx, down_y);
                assert forall|x: int, y: int|
                    in_bounds(wi, hi, x, y) && #[trigger] visited@[y * wi + x] && !on_stack(
                        stack@, x, y,
                    ) implies neighbors_visited(t, wi, hi, visited@, x, y) by {
                    lemma_cell_index_bounds(wi, hi, x, y);
                    lemma_cell_index_inverse(wi, x, y);
                    if x == cx as int && y == cy as int {
                        if is_floor_at(t, wi, hi, x + 1, y) {
                            lemma_cell_index_bounds(wi, hi, x + 1, y);
                            assert(vv1[y * wi + (x + 1)]);
                        }
                        if is_floor_at(t, wi, hi, x - 1, y) {
                            lemma_cell_index_bounds(wi, hi, x - 1, y);
                            assert(vv2[y * wi + (x - 1)]);
                        }
                        if is_floor_at(t, wi, hi, x, y + 1) {
                            lemma_cell_index_bounds(wi, hi, x, y + 1);
                            assert(vv3[(y + 1) * wi + x]);
                        }
                        if is_floor_at(t, wi, hi, x, y - 1) {
                            lemma_cell_index_bounds(wi, hi, x, y - 1);
                            assert(visited@[(y - 1) * wi + x]);
                        }
                    } else {
                        assert(visited0[y * wi + x] && !on_stack(base, x, y));
                        if on_stack(stack0, x, y) {
                            let k = choose|k: int|
                                0 <= k < stack0.len() && (#[trigger] stack0[k]).0 == x
                                    && stack0[k].1 == y;
                            assert(k < stack0.len() - 1);
                            assert((#[trigger] base[k]).0 == x && base[k].1 == y);
                            assert(false);
                        }
                        assert(neighbors_visited(t, wi, hi, visited0, x, y));
                        lemma_neighbors_visited_monotone(t, wi, hi, visited0, visited@, x, y);
                    }
                };
            }
        }
        proof {
            assert forall|x: int, y: int|
                in_bounds(wi, hi, x, y) && #[trigger] visited@[y * wi + x] implies
                neighbors_visited(t, wi, hi, visited@, x, y) by {
                assert(!on_stack(stack@, x, y));
            };
        }
        let target_idx = (to_y * w + to_x) as usize;
        let r = visited[target_idx];
        proof {
            if r {
                assert(visited@[to_y as int * wi + to_x as int]);
            } else {
                if floor_reachable(t, wi, hi, ax, ay, to_x as int, to_y as int) {
                    let p = choose|p: Seq<(int, int)>|
                        #[trigger] floor_path(t, wi, hi, p) && p.first() == (ax, ay)
                            && p.last() == (to_x as int, to_y as int);
                    lemma_path_stays_marked(t, wi, hi, ax, ay, visited@, p);
                    assert(false);
                }
            }
        }
        r
    }
}

/// An all-false marking counts zero.
proof fn lemma_count_all_unmarked(s: Seq<bool>)
    requires
        forall|i: int| 0 <= i < s.len() ==> !s[i],
    ensures
        count_marked(s) == 0,
    decreases s.len(),
{
    if s.len() > 0 {
        lemma_count_all_unmarked(s.drop_last());
    }
}

/// Marks and stacks one neighbor cell if it is an in-bounds, unmarked floor
/// cell; otherwise changes nothing. Keeps every flood-fill invariant and
/// leaves the neighbor marked whenever it is a floor cell.
#[verifier::loop_isolation(false)]
#[verifier::rlimit(60)]
fn visit_neighbor(
    tiles: &Vec<TileType>, w: i32, h: i32, from_x: i32, from_y: i32, visited: &mut Vec<bool>,
    stack: &mut Vec<(i32, i32)>, cx: i32, cy: i32, nx: i32, ny: i32,
)
    requires
        grid_ok(tiles@, w as int, h as int),
        old(visited)@.len() == (w as int) * (h as int),
        in_bounds(w as int, h as int, cx as int, cy as int),
        -2 <= nx <= GRID_DIM_MAX + 1,
        -2 <= ny <= GRID_DIM_MAX + 1,
        adjacent(cx as int, cy as int, nx as int, ny as int),
        in_bounds(w as int, h as int, from_x as int, from_y as int),
        floor_reachable(
            tiles@, w as int, h as int, from_x as int, from_y as int, cx as int, cy as int,
        ),
        stack_ok(tiles@, w as int, h as int, old(stack)@, old(visited)@),
        marks_sound(tiles@, w as int, h as int, from_x as int, from_y as int, old(visited)@),
    ensures
        final(visited)@.len() == old(visited)@.len(),
        forall|k: int| 0 <= k < old(visited)@.len() && old(visited)@[k] ==> final(visited)@[k],
        (final(visited)@ == old(visited)@ && final(stack)@ == old(stack)@) || (in_bounds(
            w as int, h as int, nx as int, ny as int,
        ) && is_floor_at(tiles@, w as int, h as int, nx as int, ny as int) && final(visited)@
            == old(visited)@.update((ny as int) * (w as int) + nx as int, true) && final(stack)@
            == old(stack)@.push((nx, ny))),
        stack_ok(tiles@, w as int, h as int, final(stack)@, final(visited)@),
        marks_sound(tiles@, w as int, h as int, from_x as int, from_y as int, final(visited)@),
        is_floor_at(tiles@, w as int, h as int, nx as int, ny as int) ==> final(visited)@[(
        ny as int) * (w as int) + nx as int],
        final(stack)@.len() - old(stack)@.len() == count_marked(final(visited)@) - count_marked(
            old(visited)@,
        ),
        0 <= count_marked(final(visited)@) <= final(visited)@.len(),
{
    proof {
        lemma_count_marked_le_len(old(visited)@);
    }
    if 0 <= nx && nx < w && 0 <= ny && ny < h {
        proof {
            lemma_cell_index_bounds(w as int, h as int, nx as int, ny as int);
            lemma_cell_index_inverse(w as int, nx as int, ny as int);
        }
        let nidx = (ny * w + nx) as usize;
        if tiles[nidx] == TileType::Floor && !visited[nidx] {
            proof {
                lemma_count_marked_update(visited@, nidx as int);
                lemma_floor_reachable_step(
                    tiles@,
                    w as int,
                    h as int,
                    from_x as int,
                    from_y as int,
                    cx as int,
                    cy as int,
                    nx as int,
                    ny as int,
                );
            }
            visited.set(nidx, true);
            stack.push((nx, ny));
            proof {
                lemma_count_marked_le_len(visited@);
                assert forall|k: int|
                    0 <= k < stack@.len() implies {
                    let c = #[trigger] stack@[k];
                    &&& in_bounds(w as int, h as int, c.0 as int, c.1 as int)
                    &&& is_floor_at(tiles@, w as int, h as int, c.0 as int, c.1 as int)
                    &&& visited@[c.1 as int * (w as int) + c.0 as int]
                } by {
                    if k < stack@.len() - 1 {
                        assert(stack@[k] == old(stack)@[k]);
                        lemma_cell_index_bounds(
                            w as int, h as int, stack@[k].0 as int, stack@[k].1 as int,
                        );
                    }
                };
                assert forall|x: int, y: int|
                    in_bounds(w as int, h as int, x, y) && #[trigger] visited@[y * (w as int) + x]
                    implies is_floor_at(tiles@, w as int, h as int, x, y) && floor_reachable(
                    tiles@, w as int, h as int, from_x as int, from_y as int, x, y,
                ) by {
                    lemma_cell_index_bounds(w as int, h as int, x, y);
                    lemma_cell_index_inverse(w as int, x, y);
                    if y * (w as int) + x != nidx as int {
                        assert(old(visited)@[y * (w as int) + x]);
                    }
                };
            }
        }
    }
}

/// Reachability extends backward across one step from an adjacent floor
/// cell: a path can be prefixed as well as extended.
pub proof fn lemma_floor_reachable_step_front(
    t: Seq<TileType>, w: int, h: int, dx: int, dy: int, cx: int, cy: int, bx: int, by: int,
)
    requires
        floor_reachable(t, w, h, cx, cy, bx, by),
        adjacent(dx, dy, cx, cy),
        is_floor_at(t, w, h, dx, dy),
    ensures
        floor_reachable(t, w, h, dx, dy, bx, by),
{
    let p = choose|p: Seq<(int, int)>|
        #[trigger] floor_path(t, w, h, p) && p.first() == (cx, cy) && p.last() == (bx, by);
    let q = seq![(dx, dy)] + p;
    assert forall|i: int| 0 <= i < q.len() implies is_floor_at(
        t, w, h, (#[trigger] q[i]).0, q[i].1,
    ) by {
        if i > 0 {
            assert(q[i] == p[i - 1]);
        }
    };
    assert forall|i: int|
        0 <= i < q.len() - 1 implies adjacent((#[trigger] q[i]).0, q[i].1, q[i + 1].0, q[i + 1].1)
    by {
        if i == 0 {
            assert(q[0] == (dx, dy) && q[1] == p[0]);
            assert(p[0] == (cx, cy));
        } else {
            assert(q[i] == p[i - 1] && q[i + 1] == p[i]);
        }
    };
    assert(floor_path(t, w, h, q));
    assert(q.first() == (dx, dy) && q.last() == (bx, by));
}

/// Reachability is transitive: two floor paths concatenate at their shared
/// endpoint.
pub proof fn lemma_floor_reachable_trans(
    t: Seq<TileType>, w: int, h: int, ax: int, ay: int, mx: int, my: int, bx: int, by: int,
)
    requires
        floor_reachable(t, w, h, ax, ay, mx, my),
        floor_reachable(t, w, h, mx, my, bx, by),
    ensures
        floor_reachable(t, w, h, ax, ay, bx, by),
{
    let p = choose|p: Seq<(int, int)>|
        #[trigger] floor_path(t, w, h, p) && p.first() == (ax, ay) && p.last() == (mx, my);
    let q = choose|q: Seq<(int, int)>|
        #[trigger] floor_path(t, w, h, q) && q.first() == (mx, my) && q.last() == (bx, by);
    if q.len() == 1 {
        assert((bx, by) == (mx, my));
    } else {
        let r = p + q.subrange(1, q.len() as int);
        assert(r.len() == p.len() + q.len() - 1);
        assert forall|i: int| 0 <= i < r.len() implies is_floor_at(
            t, w, h, (#[trigger] r[i]).0, r[i].1,
        ) by {
            if i < p.len() {
                assert(r[i] == p[i]);
            } else {
                assert(r[i] == q[i - p.len() + 1]);
            }
        };
        assert forall|i: int|
            0 <= i < r.len() - 1 implies adjacent(
                (#[trigger] r[i]).0, r[i].1, r[i + 1].0, r[i + 1].1,
            )
        by {
            if i < p.len() - 1 {
                assert(r[i] == p[i] && r[i + 1] == p[i + 1]);
            } else if i == p.len() - 1 {
                assert(r[i] == p.last() && r[i + 1] == q[1]);
                assert(p.last() == q[0]);
                assert(adjacent(q[0].0, q[0].1, q[1].0, q[1].1));
            } else {
                assert(r[i] == q[i - p.len() + 1] && r[i + 1] == q[i - p.len() + 2]);
            }
        };
        assert(floor_path(t, w, h, r));
        assert(r.first() == (ax, ay) && r.last() == (bx, by));
    }
}

/// A horizontal run of floor cells joins its two ends, in both directions.
pub proof fn lemma_floor_run_horizontal(
    t: Seq<TileType>, w: int, h: int, y: int, lo: int, hi: int,
)
    requires
        lo <= hi,
        forall|x: int| lo <= x <= hi ==> #[trigger] is_floor_at(t, w, h, x, y),
    ensures
        floor_reachable(t, w, h, lo, y, hi, y),
        floor_reachable(t, w, h, hi, y, lo, y),
    decreases hi - lo,
{
    if lo == hi {
        lemma_floor_reachable_refl(t, w, h, lo, y);
    } else {
        lemma_floor_run_horizontal(t, w, h, y, lo, hi - 1);
        lemma_floor_reachable_step(t, w, h, lo, y, hi - 1, y, hi, y);
        lemma_floor_reachable_step_front(t, w, h, hi, y, hi - 1, y, lo, y);
    }
}

/// A vertical run of floor cells joins its two ends, in both directions.
pub proof fn lemma_floor_run_vertical(t: Seq<TileType>, w: int, h: int, x: int, lo: int, hi: int)
    requires
        lo <= hi,
        forall|y: int| lo <= y <= hi ==> #[trigger] is_floor_at(t, w, h, x, y),
    ensures
        floor_reachable(t, w, h, x, lo, x, hi),
        floor_reachable(t, w, h, x, hi, x, lo),
    decreases hi - lo,
{
    if lo == hi {
        lemma_floor_reachable_refl(t, w, h, x, lo);
    } else {
        lemma_floor_run_vertical(t, w, h, x, lo, hi - 1);
        lemma_floor_reachable_step(t, w, h, x, lo, x, hi - 1, x, hi);
        lemma_floor_reachable_step_front(t, w, h, x, hi, x, hi - 1, x, lo);
    }
}

/// Any two cells strictly inside the same room of a generated map are
/// joined by a floor path: the L-shaped route between them stays strictly
/// inside the room, whose interior the generator guarantees to be floor.
/// Connectivity across different rooms depends on the randomly carved
/// corridors and is checked per map with `floor_path_exists`.
pub proof fn lemma_room_interior_connected(
    m: DungeonMap, i: int, x1: int, y1: int, x2: int, y2: int,
)
    requires
        m.wf(),
        crate::gen::room_interiors_floor(m),
        0 <= i < m.rooms@.len(),
        crate::gen::strictly_inside(m.rooms@[i], x1, y1),
        crate::gen::strictly_inside(m.rooms@[i], x2, y2),
    ensures
        floor_reachable(m.tiles@, m.width as int, m.height as int, x1, y1, x2, y2),
{
    let t = m.tiles@;
    let w = m.width as int;
    let h = m.height as int;
    let room = m.rooms@[i];
    assert forall|x: int| room.x < x < room.spec_max_x() implies #[trigger] is_floor_at(
        t, w, h, x, y1,
    ) by {
        assert(crate::gen::strictly_inside(room, x, y1));
    };
    assert forall|y: int| room.y < y < room.spec_max_y() implies #[trigger] is_floor_at(
        t, w, h, x2, y,
    ) by {
        assert(crate::gen::strictly_inside(room, x2, y));
    };
    if x1 <= x2 {
        lemma_floor_run_horizontal(t, w, h, y1, x1, x2);
    } else {
        lemma_floor_run_horizontal(t, w, h, y1, x2, x1);
    }
    if y1 <= y2 {
        lemma_floor_run_vertical(t, w, h, x2, y1, y2);
    } else {
        lemma_floor_run_vertical(t, w, h, x2, y2, y1);
    }
    lemma_floor_reachable_trans(t, w, h, x1, y1, x2, y1, x2, y2);
}

/// Floors are kept cell-for-cell, restated by coordinates.
pub proof fn lemma_floors_kept_by_coords(t1: Seq<TileType>, t2: Seq<TileType>, w: int, h: int)
    requires
        grid_ok(t1, w, h),
        t2.len() == t1.len(),
        forall|i: int| 0 <= i < t1.len() && t1[i] == TileType::Floor ==> t2[i] == TileType::Floor,
    ensures
        forall|x: int, y: int|
            #[trigger] is_floor_at(t1, w, h, x, y) ==> is_floor_at(t2, w, h, x, y),
{
    assert forall|x: int, y: int|
        #[trigger] is_floor_at(t1, w, h, x, y) implies is_floor_at(t2, w, h, x, y) by {
        lemma_cell_index_bounds(w, h, x, y);
    };
}

/// Reachability is preserved when the grid only gains floors: the same path
/// serves.
pub proof fn lemma_floor_reachable_monotone(
    t1: Seq<TileType>, t2: Seq<TileType>, w: int, h: int, ax: int, ay: int, bx: int, by: int,
)
    requires
        forall|x: int, y: int|
            #[trigger] is_floor_at(t1, w, h, x, y) ==> is_floor_at(t2, w, h, x, y),
        floor_reachable(t1, w, h, ax, ay, bx, by),
    ensures
        floor_reachable(t2, w, h, ax, ay, bx, by),
{
    let p = choose|p: Seq<(int, int)>|
        #[trigger] floor_path(t1, w, h, p) && p.first() == (ax, ay) && p.last() == (bx, by);
    assert forall|i: int| 0 <= i < p.len() implies is_floor_at(
        t2, w, h, (#[trigger] p[i]).0, p[i].1,
    ) by {
        assert(is_floor_at(t1, w, h, p[i].0, p[i].1));
    };
    assert(floor_path(t2, w, h, p));
}

/// A horizontal-then-vertical L of floor cells joins its two corner ends,
/// in both directions: the horizontal leg runs in the first cell's row, the
/// vertical leg in the second cell's column.
pub proof fn lemma_l_connects_h_then_v(
    t: Seq<TileType>, w: int, h: int, px: int, py: int, qx: int, qy: int,
)
    requires
        forall|x: int|
            (if px <= qx { px } else { qx }) <= x <= (if px <= qx { qx } else { px })
                ==> #[trigger] is_floor_at(t, w, h, x, py),
        forall|y: int|
            (if py <= qy { py } else { qy }) <= y <= (if py <= qy { qy } else { py })
                ==> #[trigger] is_floor_at(t, w, h, qx, y),
    ensures
        floor_reachable(t, w, h, px, py, qx, qy),
        floor_reachable(t, w, h, qx, qy, px, py),
{
    if px <= qx {
        lemma_floor_run_horizontal(t, w, h, py, px, qx);
    } else {
        lemma_floor_run_horizontal(t, w, h, py, qx, px);
    }
    if py <= qy {
        lemma_floor_run_vertical(t, w, h, qx, py, qy);
    } else {
        lemma_floor_run_vertical(t, w, h, qx, qy, py);
    }
    lemma_floor_reachable_trans(t, w, h, px, py, qx, py, qx, qy);
    lemma_floor_reachable_trans(t, w, h, qx, qy, qx, py, px, py);
}

/// A vertical-then-horizontal L of floor cells joins its two corner ends,
/// in both directions: the vertical leg runs in the first cell's column,
/// the horizontal leg in the second cell's row.
pub proof fn lemma_l_connects_v_then_h(
    t: Seq<TileType>, w: int, h: int, px: int, py: int, qx: int, qy: int,
)
    requires
        forall|y: int|
            (if py <= qy { py } else { qy }) <= y <= (if py <= qy { qy } else { py })
                ==> #[trigger] is_floor_at(t, w, h, px, y),
        forall|x: int|
            (if px <= qx { px } else { qx }) <= x <= (if px <= qx { qx } else { px })
                ==> #[trigger] is_floor_at(t, w, h, x, qy),
    ensures
        floor_reachable(t, w, h, px, py, qx, qy),
        floor_reachable(t, w, h, qx, qy, px, py),
{
    if py <= qy {
        lemma_floor_run_vertical(t, w, h, px, py, qy);
    } else {
        lemma_floor_run_vertical(t, w, h, px, qy, py);
    }
    if px <= qx {
        lemma_floor_run_horizontal(t, w, h, qy, px, qx);
    } else {
        lemma_floor_run_horizontal(t, w, h, qy, qx, px);
    }
    lemma_floor_reachable_trans(t, w, h, px, py, px, qy, qx, qy);
    lemma_floor_reachable_trans(t, w, h, qx, qy, px, qy, px, py);
}

} // verus!
