//! Cell classification, movement directions, and world-space points.

use vstd::prelude::*;

verus! {

/// What one grid cell holds.
#[derive(Copy, Clone, Debug, PartialEq, Eq, Structural)]
pub enum TileType {
    Wall,
    Floor,
    Void,
}

/// The four axis directions a movement attempt can take.
#[derive(Copy, Clone, Debug, PartialEq, Eq, Structural)]
pub enum Direction {
    Up,
    Down,
    Left,
    Right,
}

/// A point in world units (grid cell coordinates times `TILE_SIZE`).
#[derive(Copy, Clone, Debug, PartialEq, Eq, Structural)]
pub struct WorldPoint {
    pub x: i32,
    pub y: i32,
}

/// Which sprite a wall cell should be drawn with, inferred from its
/// four axis neighbors.
#[derive(Copy, Clone, Debug, PartialEq, Eq, Structural)]
pub enum WallType {
    Left,
    Right,
    Top,
    Bottom,
    Corner(CornerType),
}

/// The corner variants of [`WallType`]: outer corners border `Void`,
/// inner corners sit where two wall runs meet around a floor pocket.
#[derive(Copy, Clone, Debug, PartialEq, Eq, Structural)]
pub enum CornerType {
    UpperLeft,
    UpperRight,
    LowerLeft,
    LowerRight,
    InnerUpperRight,
    InnerUpperLeft,
    InnerLowerLeft,
    InnerLowerRight,
}

} // verus!
