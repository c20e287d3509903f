//! The attributes an entity may carry.
//!
//! An entity is a unit or a tower only by the attributes attached to it: a
//! unit carries a position, a health, a speed and a waypoint, a tower a
//! position, a damage, a range, a score and a target.

use vstd::prelude::*;

verus! {

/// A length or a coordinate, in world units.
pub type Distance = i32;

/// A point of the world.
#[derive(Clone, Copy, Debug, PartialEq, Eq, Structural)]
pub struct Position {
    pub x: Distance,
    pub y: Distance,
}

impl Position {
    /// The squared Euclidean length of the vector from the origin to `self`.
    pub open spec fn norm_squared_spec(self) -> int {
        self.x * self.x + self.y * self.y
    }

    /// Squared Euclidean length, where it fits a `Distance`.
    pub fn norm_squared(&self) -> (n: Distance)
        requires
            self.norm_squared_spec() <= i32::MAX,
        ensures
            n == self.norm_squared_spec(),
    {
        assert(self.x * self.x >= 0 && self.y * self.y >= 0) by (nonlinear_arith);
        self.x * self.x + self.y * self.y
    }
}

/// Whether `v` is a value of `Distance`.
pub open spec fn is_distance(v: int) -> bool {
    i32::MIN <= v <= i32::MAX
}

impl core::ops::Add for Position {
    type Output = Position;

    /// Component-wise sum.
    fn add(self, rhs: Self) -> (sum: Position) {
        Position { x: self.x + rhs.x, y: self.y + rhs.y }
    }
}

impl vstd::std_specs::ops::AddSpecImpl for Position {
    open spec fn obeys_add_spec() -> bool {
        true
    }

    open spec fn add_req(self, rhs: Self) -> bool {
        is_distance(self.x + rhs.x) && is_distance(self.y + rhs.y)
    }

    open spec fn add_spec(self, rhs: Self) -> Position {
        Position { x: (self.x + rhs.x) as i32, y: (self.y + rhs.y) as i32 }
    }
}

impl<'a> core::ops::Add for &'a Position {
    type Output = Position;

    /// Component-wise sum.
    fn add(self, rhs: Self) -> (sum: Position) {
        Position { x: self.x + rhs.x, y: self.y + rhs.y }
    }
}

impl<'a> vstd::std_specs::ops::AddSpecImpl for &'a Position {
    open spec fn obeys_add_spec() -> bool {
        true
    }

    open spec fn add_req(self, rhs: Self) -> bool {
        is_distance(self.x + rhs.x) && is_distance(self.y + rhs.y)
    }

    open spec fn add_spec(self, rhs: Self) -> Position {
        Position { x: (self.x + rhs.x) as i32, y: (self.y + rhs.y) as i32 }
    }
}

impl core::ops::Sub for Position {
    type Output = Position;

    /// Component-wise difference.
    fn sub(self, rhs: Self) -> (difference: Position) {
        Position { x: self.x - rhs.x, y: self.y - rhs.y }
    }
}

impl vstd::std_specs::ops::SubSpecImpl for Position {
    open spec fn obeys_sub_spec() -> bool {
        true
    }

    open spec fn sub_req(self, rhs: Self) -> bool {
        is_distance(self.x - rhs.x) && is_distance(self.y - rhs.y)
    }

    open spec fn sub_spec(self, rhs: Self) -> Position {
        Position { x: (self.x - rhs.x) as i32, y: (self.y - rhs.y) as i32 }
    }
}

impl<'a> core::ops::Sub for &'a Position {
    type Output = Position;

    /// Component-wise difference.
    fn sub(self, rhs: Self) -> (difference: Position) {
        Position { x: self.x - rhs.x, y: self.y - rhs.y }
    }
}

impl<'a> vstd::std_specs::ops::SubSpecImpl for &'a Position {
    open spec fn obeys_sub_spec() -> bool {
        true
    }

    open spec fn sub_req(self, rhs: Self) -> bool {
        is_distance(self.x - rhs.x) && is_distance(self.y - rhs.y)
    }

    open spec fn sub_spec(self, rhs: Self) -> Position {
        Position { x: (self.x - rhs.x) as i32, y: (self.y - rhs.y) as i32 }
    }
}

/// What is left of a unit's life, and what it started with. The current
/// value may fall below zero before the unit is removed.
#[derive(Clone, Copy, Debug, PartialEq, Eq, Structural)]
pub struct Health {
    pub value: i32,
    pub max: i32,
}

/// Distance a unit advances per simulation step, at least 1.
#[derive(Clone, Copy, Debug, PartialEq, Eq, Structural)]
pub struct Speed(pub Distance);

/// Amount taken from a target's health by one hit.
#[derive(Clone, Copy, Debug, PartialEq, Eq, Structural)]
pub struct Damage(pub i32);

/// How far a tower reaches: a unit is in range when its squared distance to
/// the tower is at most `squared`.
#[derive(Clone, Copy, Debug, PartialEq, Eq, Structural)]
pub struct Range {
    pub squared: Distance,
}

/// Number of kills of a tower.
#[derive(Clone, Copy, Debug, PartialEq, Eq, Structural)]
pub struct Score(pub i32);

/// Where the unit stood that a tower last engaged, if it engaged one.
#[derive(Clone, Copy, Debug, PartialEq, Eq, Structural)]
pub struct Target {
    pub position: Option<Position>,
}

/// Index, into the shared path, of the point a unit is heading for.
#[derive(Clone, Copy, Debug, PartialEq, Eq, Structural)]
pub struct Waypoint {
    pub index: usize,
}

/// The attributes a unit is created with.
#[derive(Clone, Copy, Debug, PartialEq, Eq, Structural)]
pub struct Unit {
    pub position: Position,
    pub speed: Speed,
    pub health: Health,
    pub waypoint: Waypoint,
}

/// The attributes a tower is created with.
#[derive(Clone, Copy, Debug, PartialEq, Eq, Structural)]
pub struct Tower {
    pub position: Position,
    pub damage: Damage,
    pub range: Range,
    pub score: Score,
    pub target: Target,
}

} // verus!
