//! Distances and directions between integer positions.

use vstd::prelude::*;
use crate::components::{Distance, Position};

verus! {

/// -1, 0 or 1, as `v` is negative, zero or positive.
pub open spec fn sign(v: int) -> int {
    if v < 0 {
        -1
    } else if v > 0 {
        1
    } else {
        0
    }
}

/// The absolute value of `v`.
pub open spec fn magnitude(v: int) -> int {
    if v < 0 {
        -v
    } else {
        v
    }
}

/// The sum of the distances along the two axes.
pub open spec fn manhattan(a: Position, b: Position) -> int {
    magnitude(a.x - b.x) + magnitude(a.y - b.y)
}

/// The square of the Euclidean distance.
pub open spec fn distance_squared(a: Position, b: Position) -> int {
    (a.x - b.x) * (a.x - b.x) + (a.y - b.y) * (a.y - b.y)
}

/// The direction of a movement along one axis: `movement` clamped to -1..=1.
pub fn direction(movement: Distance) -> (d: Distance)
    ensures
        d == sign(movement as int),
{
    if movement < 0 {
        -1
    } else if movement > 0 {
        1
    } else {
        0
    }
}

/// Manhattan distance between two positions, where it fits a `Distance`.
pub fn manhattan_distance(pos: &Position, other_pos: &Position) -> (d: Distance)
    requires
        manhattan(*pos, *other_pos) <= i32::MAX,
    ensures
        d == manhattan(*pos, *other_pos),
{
    let dx: i64 = pos.x as i64 - other_pos.x as i64;
    let dy: i64 = pos.y as i64 - other_pos.y as i64;
    let ax: i64 = if dx < 0 { -dx } else { dx };
    let ay: i64 = if dy < 0 { -dy } else { dy };
    (ax + ay) as i32
}

/// Squared Euclidean distance between two positions. It is computed wide
/// enough for any two positions.
pub fn squared_distance(a: &Position, b: &Position) -> (d: i128)
    ensures
        d == distance_squared(*a, *b),
        0 <= d,
{
    let dx: i128 = a.x as i128 - b.x as i128;
    let dy: i128 = a.y as i128 - b.y as i128;
    assert(0 <= dx * dx <= 0x1_0000_0000_0000_0000) by (nonlinear_arith)
        requires
            -0x1_0000_0000 <= dx <= 0x1_0000_0000,
    ;
    assert(0 <= dy * dy <= 0x1_0000_0000_0000_0000) by (nonlinear_arith)
        requires
            -0x1_0000_0000 <= dy <= 0x1_0000_0000,
    ;
    dx * dx + dy * dy
}

} // verus!
