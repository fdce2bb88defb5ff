//! Axis-aligned room rectangles in grid-cell units.

use vstd::prelude::*;
use vstd::math::abs;

verus! {

/// How near two room edges may come before the rooms count as touching.
pub const TOUCH_THRESHOLD: i32 = 4;

/// An axis-aligned rectangle of grid cells: `width × height` cells whose
/// lowest corner is `(x, y)`.
#[derive(Copy, Clone, Debug, PartialEq, Eq, Structural)]
pub struct Rectangle {
    pub x: i32,
    pub y: i32,
    pub width: i32,
    pub height: i32,
}

impl Rectangle {
    /// Greatest x coordinate covered: `x + width - 1`.
    pub open spec fn spec_max_x(self) -> int {
        self.x + self.width - 1
    }

    /// Greatest y coordinate covered: `y + height - 1`.
    pub open spec fn spec_max_y(self) -> int {
        self.y + self.height - 1
    }

    /// Center x, rounded down. Corridor routing depends on this bias.
    pub open spec fn spec_center_x(self) -> int {
        self.x + self.width / 2
    }

    /// Center y, rounded down.
    pub open spec fn spec_center_y(self) -> int {
        self.y + self.height / 2
    }

    /// Closed-interval overlap on both axes.
    pub open spec fn spec_intersects(self, other: Rectangle) -> bool {
        &&& self.x <= other.spec_max_x()
        &&& self.spec_max_x() >= other.x
        &&& self.y <= other.spec_max_y()
        &&& self.spec_max_y() >= other.y
    }

    /// Some pair of facing edges lies within [`TOUCH_THRESHOLD`] cells.
    pub open spec fn spec_touches(self, other: Rectangle) -> bool {
        ||| abs(self.x - other.spec_max_x()) < TOUCH_THRESHOLD
        ||| abs(self.spec_max_x() - other.x) < TOUCH_THRESHOLD
        ||| abs(self.y - other.spec_max_y()) < TOUCH_THRESHOLD
        ||| abs(self.spec_max_y() - other.y) < TOUCH_THRESHOLD
    }

    /// This rectangle's center lies within `units` cells of one of the other
    /// rectangle's bounds on some axis. The comparison is strict: a center
    /// exactly `units` away does not count as close.
    pub open spec fn spec_center_within_units_of_bounds(self, other: Rectangle, units: int) -> bool {
        ||| abs(self.spec_center_x() - other.x) < units
        ||| abs(self.spec_center_x() - other.spec_max_x()) < units
        ||| abs(self.spec_center_y() - other.y) < units
        ||| abs(self.spec_center_y() - other.spec_max_y()) < units
    }

    pub fn new(x: i32, y: i32, width: i32, height: i32) -> (r: Rectangle)
        ensures
            r == (Rectangle { x, y, width, height }),
    {
        Rectangle { x, y, width, height }
    }

    /// The integer midpoint, biased toward the low corner by floor division.
    pub fn center(&self) -> (r: (i32, i32))
        requires
            self.width >= 0,
            self.height >= 0,
            self.x + self.width / 2 <= i32::MAX,
            self.y + self.height / 2 <= i32::MAX,
        ensures
            r.0 == self.spec_center_x(),
            r.1 == self.spec_center_y(),
    {
        (self.x + self.width / 2, self.y + self.height / 2)
    }

    /// The lowest corner.
    pub fn min(&self) -> (r: (i32, i32))
        ensures
            r.0 == self.x,
            r.1 == self.y,
    {
        (self.x, self.y)
    }

    /// The highest corner, `origin + size - 1`.
    pub fn max(&self) -> (r: (i32, i32))
        requires
            i32::MIN <= self.x + self.width - 1 <= i32::MAX,
            i32::MIN <= self.y + self.height - 1 <= i32::MAX,
        ensures
            r.0 == self.spec_max_x(),
            r.1 == self.spec_max_y(),
    {
        let mx = (self.x as i64 + self.width as i64 - 1) as i32;
        let my = (self.y as i64 + self.height as i64 - 1) as i32;
        (mx, my)
    }

    /// Closed-interval overlap test on both axes.
    pub fn intersects(&self, other_rect: &Rectangle) -> (r: bool)
        ensures
            r == self.spec_intersects(*other_rect),
    {
        let sx = self.x as i64;
        let sy = self.y as i64;
        let smax_x = self.x as i64 + self.width as i64 - 1;
        let smax_y = self.y as i64 + self.height as i64 - 1;
        let ox = other_rect.x as i64;
        let oy = other_rect.y as i64;
        let omax_x = other_rect.x as i64 + other_rect.width as i64 - 1;
        let omax_y = other_rect.y as i64 + other_rect.height as i64 - 1;
        sx <= omax_x && smax_x >= ox && sy <= omax_y && smax_y >= oy
    }

    /// Whether some edge of the two rectangles comes within
    /// [`TOUCH_THRESHOLD`] cells of a facing edge of the other.
    pub fn touches(&self, other_rect: &Rectangle) -> (r: bool)
        ensures
            r == self.spec_touches(*other_rect),
    {
        let smax_x = self.x as i64 + self.width as i64 - 1;
        let smax_y = self.y as i64 + self.height as i64 - 1;
        let omax_x = other_rect.x as i64 + other_rect.width as i64 - 1;
        let omax_y = other_rect.y as i64 + other_rect.height as i64 - 1;
        let t = TOUCH_THRESHOLD as i64;
        abs_lt(self.x as i64 - omax_x, t)
            || abs_lt(smax_x - other_rect.x as i64, t)
            || abs_lt(self.y as i64 - omax_y, t)
            || abs_lt(smax_y - other_rect.y as i64, t)
    }

    /// Whether this rectangle's center falls within `units` cells of the
    /// other rectangle's bounds on some axis (strictly less than `units`).
    pub fn center_x_units_away_from_bounds(&self, other_rect: &Rectangle, units: i32) -> (r: bool)
        requires
            self.width >= 0,
            self.height >= 0,
        ensures
            r == self.spec_center_within_units_of_bounds(*other_rect, units as int),
    {
        let cx = self.x as i64 + self.width as i64 / 2;
        let cy = self.y as i64 + self.height as i64 / 2;
        let omax_x = other_rect.x as i64 + other_rect.width as i64 - 1;
        let omax_y = other_rect.y as i64 + other_rect.height as i64 - 1;
        let u = units as i64;
        abs_lt(cx - other_rect.x as i64, u)
            || abs_lt(cx - omax_x, u)
            || abs_lt(cy - other_rect.y as i64, u)
            || abs_lt(cy - omax_y, u)
    }
}

/// `|d| < bound` for values small enough that negation cannot overflow.
fn abs_lt(d: i64, bound: i64) -> (r: bool)
    requires
        i64::MIN < d,
    ensures
        r == (abs(d as int) < bound),
{
    let a = if d < 0 { -d } else { d };
    a < bound
}

/// The overlap test does not depend on the order of its arguments.
pub proof fn lemma_intersects_symmetric(a: Rectangle, b: Rectangle)
    ensures
        a.spec_intersects(b) == b.spec_intersects(a),
{
}

/// The touch test does not depend on the order of its arguments: each of its
/// four edge comparisons swaps places with another when the arguments swap.
pub proof fn lemma_touches_symmetric(a: Rectangle, b: Rectangle)
    ensures
        a.spec_touches(b) == b.spec_touches(a),
{
    assert(abs(a.x - b.spec_max_x()) == abs(b.spec_max_x() - a.x));
    assert(abs(a.spec_max_x() - b.x) == abs(b.x - a.spec_max_x()));
    assert(abs(a.y - b.spec_max_y()) == abs(b.spec_max_y() - a.y));
    assert(abs(a.spec_max_y() - b.y) == abs(b.y - a.spec_max_y()));
}

} // verus!
