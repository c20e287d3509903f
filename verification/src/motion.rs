//! How one unit moves along the path in one step.
//!
//! A unit heads for the point of the path that its waypoint names. Along each
//! axis by itself it covers the distance left, but no more than its speed. So
//! a unit moving diagonally covers more ground than one moving along an axis.
//! When the step ends exactly on the point, the waypoint goes on to the next.

use vstd::prelude::*;
use crate::components::{Position, Speed, Waypoint};
use crate::geometry::{magnitude, sign};

verus! {

/// The coordinate reached from `from` by one step toward `to`: the distance
/// left, capped at `speed`, in the direction of `to`.
pub open spec fn step_toward(from: int, to: int, speed: int) -> int {
    let left = magnitude(to - from);
    let length = if left <= speed { left } else { speed };
    if to > from {
        from + length
    } else if to < from {
        from - length
    } else {
        from
    }
}

/// Position and waypoint of a unit after one step. A unit whose waypoint is
/// past the end of the path stays where it is.
pub open spec fn advanced(position: Position, waypoint: Waypoint, speed: Speed, path: Seq<Position>) -> (
    Position,
    Waypoint,
) {
    if waypoint.index < path.len() {
        let goal = path[waypoint.index as int];
        let reached = Position {
            x: step_toward(position.x as int, goal.x as int, speed.0 as int) as i32,
            y: step_toward(position.y as int, goal.y as int, speed.0 as int) as i32,
        };
        if reached == goal {
            (reached, Waypoint { index: (waypoint.index + 1) as usize })
        } else {
            (reached, waypoint)
        }
    } else {
        (position, waypoint)
    }
}

/// One step along one axis.
fn step_axis(from: i32, to: i32, speed: i32) -> (reached: i32)
    requires
        speed >= 0,
    ensures
        reached == step_toward(from as int, to as int, speed as int),
{
    let delta: i64 = to as i64 - from as i64;
    let left: i64 = if delta < 0 { -delta } else { delta };
    let length: i64 = if left <= speed as i64 { left } else { speed as i64 };
    if delta > 0 {
        (from as i64 + length) as i32
    } else if delta < 0 {
        (from as i64 - length) as i32
    } else {
        from
    }
}

/// Moves a unit by one step: see [`advanced`]. The speed is not negative.
pub fn advance(position: Position, waypoint: Waypoint, speed: Speed, path: &[Position]) -> (next: (
    Position,
    Waypoint,
))
    requires
        speed.0 >= 0,
    ensures
        next == advanced(position, waypoint, speed, path@),
{
    if waypoint.index < path.len() {
        let goal = path[waypoint.index];
        let reached = Position {
            x: step_axis(position.x, goal.x, speed.0),
            y: step_axis(position.y, goal.y, speed.0),
        };
        if reached.x == goal.x && reached.y == goal.y {
            (reached, Waypoint { index: waypoint.index + 1 })
        } else {
            (reached, waypoint)
        }
    } else {
        (position, waypoint)
    }
}

/// A step never passes its goal: along an axis, a unit that is at least its
/// speed away from the goal covers exactly its speed toward it, and a unit
/// that is no further away than its speed lands on the goal.
pub proof fn lemma_step_toward(from: int, to: int, speed: int)
    requires
        speed >= 0,
    ensures
        magnitude(to - from) >= speed ==> magnitude(step_toward(from, to, speed) - from) == speed,
        magnitude(to - from) >= speed ==> magnitude(to - step_toward(from, to, speed)) == magnitude(
            to - from,
        ) - speed,
        magnitude(to - from) <= speed ==> step_toward(from, to, speed) == to,
        speed > 0 && from != to ==> sign(step_toward(from, to, speed) - from) == sign(to - from),
        from <= to ==> from <= step_toward(from, to, speed) <= to,
        to <= from ==> to <= step_toward(from, to, speed) <= from,
{
}

/// A unit that is within its speed of the goal on both axes lands on the goal,
/// and its waypoint goes on to the next point of the path.
pub proof fn lemma_arrives_at_waypoint(
    position: Position,
    waypoint: Waypoint,
    speed: Speed,
    path: Seq<Position>,
)
    requires
        speed.0 >= 0,
        waypoint.index < path.len(),
        magnitude(path[waypoint.index as int].x - position.x) <= speed.0,
        magnitude(path[waypoint.index as int].y - position.y) <= speed.0,
    ensures
        advanced(position, waypoint, speed, path) == (
            path[waypoint.index as int],
            Waypoint { index: (waypoint.index + 1) as usize },
        ),
{
}

/// The waypoint goes on exactly when the step ends on the goal, and then by
/// one: the next step heads for the next point of the path. Until then the
/// unit keeps heading for the same point. The path is one that a slice can
/// hold.
pub proof fn lemma_waypoint_advance(
    position: Position,
    waypoint: Waypoint,
    speed: Speed,
    path: Seq<Position>,
)
    requires
        waypoint.index < path.len(),
        path.len() <= usize::MAX,
    ensures
        ({
            let next = advanced(position, waypoint, speed, path);
            let goal = path[waypoint.index as int];
            &&& next.0 == goal ==> next.1.index == waypoint.index + 1
            &&& next.0 != goal ==> next.1 == waypoint
            &&& next.0 == goal && waypoint.index + 1 < path.len() ==> advanced(
                next.0,
                next.1,
                speed,
                path,
            ).0 == (Position {
                x: step_toward(
                    goal.x as int,
                    path[waypoint.index + 1].x as int,
                    speed.0 as int,
                ) as i32,
                y: step_toward(
                    goal.y as int,
                    path[waypoint.index + 1].y as int,
                    speed.0 as int,
                ) as i32,
            })
            &&& next.0 == goal && waypoint.index + 1 == path.len() ==> advanced(
                next.0,
                next.1,
                speed,
                path,
            ) == next
        }),
{
}

/// A unit whose waypoint is past the end of the path does not move, however
/// often it is stepped.
pub proof fn lemma_rests_past_the_path(
    position: Position,
    waypoint: Waypoint,
    speed: Speed,
    path: Seq<Position>,
)
    requires
        waypoint.index >= path.len(),
    ensures
        advanced(position, waypoint, speed, path) == (position, waypoint),
{
}

} // verus!
