//! Grid coordinates, movement directions and the coarse round phase.
use vstd::prelude::*;

verus! {

/// A coarse-grid cell: the coordinate space of consumables and walls.
#[derive(Clone, Copy, PartialEq, Eq, Structural, Debug)]
pub struct Position {
    pub x: i32,
    pub y: i32,
}

/// A fine-grid cell: the coordinate space of the creature's segments.
#[derive(Clone, Copy, PartialEq, Eq, Structural, Debug)]
pub struct DiplopodPosition {
    pub x: i32,
    pub y: i32,
}

/// Truncating halving, the mathematical counterpart of `i32 / 2` in Rust:
/// rounds toward zero, so the fine cells -1, 0 and 1 all project to coarse 0.
pub open spec fn half_toward_zero(c: int) -> int {
    if c >= 0 {
        c / 2
    } else {
        -((-c) / 2)
    }
}

/// Halves a fine coordinate, rounding toward zero.
fn div2(c: i32) -> (r: i32)
    ensures
        r as int == half_toward_zero(c as int),
{
    if c >= 0 {
        let q: u32 = (c as u32) / 2;
        assert(q <= 0x4000_0000);
        q as i32
    } else {
        let n: u64 = (-(c as i64)) as u64;
        let q: u64 = n / 2;
        assert(q <= 0x4000_0000);
        let r: i64 = -(q as i64);
        r as i32
    }
}

impl DiplopodPosition {
    /// The coarse-grid cell this fine-grid cell lies in.
    pub open spec fn spec_to_position(self) -> Position {
        Position { x: half_toward_zero(self.x as int) as i32, y: half_toward_zero(self.y as int) as i32 }
    }

    /// Projects onto the coarse grid by integer division by the scale factor.
    pub fn to_position(&self) -> (p: Position)
        ensures
            p == self.spec_to_position(),
    {
        Position { x: div2(self.x), y: div2(self.y) }
    }
}

/// The creature's movement direction: one of the four axis directions, or
/// still (not yet moving at round start).
#[derive(Clone, Copy, PartialEq, Eq, Structural, Debug)]
pub enum Direction {
    Still,
    Left,
    Right,
    Up,
    Down,
}

impl Direction {
    /// Horizontal step of this direction.
    pub open spec fn spec_dx(self) -> int {
        match self {
            Direction::Left => -1,
            Direction::Right => 1,
            _ => 0,
        }
    }

    /// Vertical step of this direction.
    pub open spec fn spec_dy(self) -> int {
        match self {
            Direction::Up => 1,
            Direction::Down => -1,
            _ => 0,
        }
    }

    /// Horizontal step, -1, 0 or 1.
    pub fn dx(&self) -> (d: i32)
        ensures
            d as int == self.spec_dx(),
    {
        match self {
            Direction::Left => -1,
            Direction::Right => 1,
            _ => 0,
        }
    }

    /// Vertical step, -1, 0 or 1.
    pub fn dy(&self) -> (d: i32)
        ensures
            d as int == self.spec_dy(),
    {
        match self {
            Direction::Up => 1,
            Direction::Down => -1,
            _ => 0,
        }
    }

    /// The direction pointing the opposite way; `Still` is its own opposite.
    /// The input boundary uses this to filter direct reversals out.
    pub fn opposite(&self) -> (d: Direction)
        ensures
            d.spec_dx() == -self.spec_dx(),
            d.spec_dy() == -self.spec_dy(),
    {
        match self {
            Direction::Still => Direction::Still,
            Direction::Left => Direction::Right,
            Direction::Right => Direction::Left,
            Direction::Up => Direction::Down,
            Direction::Down => Direction::Up,
        }
    }
}

/// The round phase the core exposes to menu and score screens.
#[derive(Clone, Copy, PartialEq, Eq, Structural, Debug)]
pub enum GameState {
    Menu,
    Game,
    Highscore,
}

/// The kind of a consumable entity on the coarse grid.
#[derive(Clone, Copy, PartialEq, Eq, Structural, Debug)]
pub enum ConsumableKind {
    Food,
    Poison,
    SuperFood,
    AntiDote,
}

/// A live consumable: its kind and the coarse cell it occupies.
#[derive(Clone, Copy, PartialEq, Eq, Structural, Debug)]
pub struct Consumable {
    pub kind: ConsumableKind,
    pub pos: Position,
}

} // verus!
