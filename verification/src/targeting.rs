//! Choosing the nearest of a run of positioned entities.
//!
//! Towers pick their target this way, and so does a click that selects or
//! removes what lies under it. Of two entities at the same distance the one
//! that comes first in the run is chosen.

use vstd::prelude::*;
use hecs::Entity;
use crate::components::{Distance, Position};
use crate::geometry::{distance_squared, squared_distance};
use crate::store::same_entity;

verus! {

/// Whether `items[k]` may be chosen from `origin`: it is not the entity to
/// skip, and its squared distance to `origin` is at most `reach`.
pub open spec fn eligible(
    items: Seq<(Entity, Position)>,
    k: int,
    origin: Position,
    reach: int,
    skip: Option<Entity>,
) -> bool {
    &&& 0 <= k < items.len()
    &&& skip != Some(items[k].0)
    &&& distance_squared(items[k].1, origin) <= reach
}

/// Whether `items[k]` is the one to choose: it is eligible, none that is
/// eligible is closer to `origin`, and none that is as close comes earlier.
pub open spec fn is_nearest(
    items: Seq<(Entity, Position)>,
    k: int,
    origin: Position,
    reach: int,
    skip: Option<Entity>,
) -> bool {
    &&& eligible(items, k, origin, reach, skip)
    &&& forall|j: int| #[trigger]
        eligible(items, j, origin, reach, skip) ==> {
            ||| distance_squared(items[k].1, origin) < distance_squared(items[j].1, origin)
            ||| distance_squared(items[k].1, origin) == distance_squared(items[j].1, origin) && k
                <= j
        }
}

/// The index of the item to choose, if any is eligible.
pub open spec fn nearest(
    items: Seq<(Entity, Position)>,
    origin: Position,
    reach: int,
    skip: Option<Entity>,
) -> Option<int> {
    if exists|k: int| is_nearest(items, k, origin, reach, skip) {
        Some(choose|k: int| is_nearest(items, k, origin, reach, skip))
    } else {
        None
    }
}

/// At most one item is the one to choose, and [`nearest`] names it.
pub proof fn lemma_nearest_is_unique(
    items: Seq<(Entity, Position)>,
    k: int,
    origin: Position,
    reach: int,
    skip: Option<Entity>,
)
    requires
        is_nearest(items, k, origin, reach, skip),
    ensures
        nearest(items, origin, reach, skip) == Some(k),
{
    let chosen = choose|j: int| is_nearest(items, j, origin, reach, skip);
    assert(is_nearest(items, chosen, origin, reach, skip));
    assert(eligible(items, k, origin, reach, skip));
    assert(eligible(items, chosen, origin, reach, skip));
}

/// Where nothing is eligible nothing is chosen, and the other way round.
pub proof fn lemma_nearest_is_none(
    items: Seq<(Entity, Position)>,
    origin: Position,
    reach: int,
    skip: Option<Entity>,
)
    ensures
        nearest(items, origin, reach, skip) is None <==> forall|k: int|
            !eligible(items, k, origin, reach, skip),
{
    if exists|k: int| eligible(items, k, origin, reach, skip) {
        let k = choose|k: int| eligible(items, k, origin, reach, skip);
        lemma_one_is_nearest(items, origin, reach, skip, items.len() as int);
        let b = choose|b: int| is_nearest_among(items, b, origin, reach, skip, items.len() as int);
        assert(is_nearest(items, b, origin, reach, skip));
    } else {
        assert forall|k: int| !is_nearest(items, k, origin, reach, skip) by {
            assert(!eligible(items, k, origin, reach, skip));
        }
    }
}

/// Whether `items[b]` is the one to choose among the first `n` items.
spec fn is_nearest_among(
    items: Seq<(Entity, Position)>,
    b: int,
    origin: Position,
    reach: int,
    skip: Option<Entity>,
    n: int,
) -> bool {
    &&& b < n
    &&& eligible(items, b, origin, reach, skip)
    &&& forall|j: int|
        j < n && #[trigger] eligible(items, j, origin, reach, skip) ==> {
            ||| distance_squared(items[b].1, origin) < distance_squared(items[j].1, origin)
            ||| distance_squared(items[b].1, origin) == distance_squared(items[j].1, origin) && b
                <= j
        }
}

/// Among the first `n` items, if one is eligible, one is the one to choose.
proof fn lemma_one_is_nearest(
    items: Seq<(Entity, Position)>,
    origin: Position,
    reach: int,
    skip: Option<Entity>,
    n: int,
)
    requires
        0 <= n <= items.len(),
    ensures
        (exists|k: int| k < n && eligible(items, k, origin, reach, skip)) ==> exists|b: int|
            is_nearest_among(items, b, origin, reach, skip, n),
    decreases n,
{
    if exists|k: int| k < n && eligible(items, k, origin, reach, skip) {
        let last = n - 1;
        lemma_one_is_nearest(items, origin, reach, skip, last);
        if exists|k: int| k < last && eligible(items, k, origin, reach, skip) {
            let b = choose|b: int| is_nearest_among(items, b, origin, reach, skip, last);
            if eligible(items, last, origin, reach, skip) && distance_squared(items[last].1, origin)
                < distance_squared(items[b].1, origin) {
                assert(is_nearest_among(items, last, origin, reach, skip, n));
            } else {
                assert(is_nearest_among(items, b, origin, reach, skip, n));
            }
        } else {
            let k = choose|k: int| k < n && eligible(items, k, origin, reach, skip);
            assert(k == last);
            assert(is_nearest_among(items, last, origin, reach, skip, n));
        }
    }
}

/// Finds the nearest item within reach of `origin`, leaving out `skip`: see
/// [`nearest`].
pub fn find_nearest(
    items: &Vec<(Entity, Position)>,
    origin: &Position,
    reach: Distance,
    skip: Option<Entity>,
) -> (found: Option<usize>)
    ensures
        match found {
            Some(k) => nearest(items@, *origin, reach as int, skip) == Some(k as int),
            None => nearest(items@, *origin, reach as int, skip) is None,
        },
        found matches Some(k) ==> is_nearest(items@, k as int, *origin, reach as int, skip),
        found is None ==> forall|k: int| !eligible(items@, k, *origin, reach as int, skip),
{
    let mut best: Option<usize> = None;
    let mut best_distance: i128 = 0;
    let mut k: usize = 0;
    while k < items.len()
        invariant
            k <= items.len(),
            best is None ==> forall|j: int|
                j < k ==> !eligible(items@, j, *origin, reach as int, skip),
            best matches Some(b) ==> best_distance == distance_squared(items@[b as int].1, *origin)
                && is_nearest_among(items@, b as int, *origin, reach as int, skip, k as int),
        decreases items.len() - k,
    {
        let kept = match skip {
            Some(entity) => !same_entity(entity, items[k].0),
            None => true,
        };
        if kept {
            let distance = squared_distance(&items[k].1, origin);
            if distance <= reach as i128 {
                let closer = match best {
                    Some(_) => distance < best_distance,
                    None => true,
                };
                if closer {
                    best = Some(k);
                    best_distance = distance;
                }
            }
        }
        k += 1;
    }
    proof {
        match best {
            Some(b) => {
                assert forall|j: int| #[trigger]
                    eligible(items@, j, *origin, reach as int, skip) implies {
                    ||| distance_squared(items@[b as int].1, *origin) < distance_squared(
                        items@[j].1,
                        *origin,
                    )
                    ||| distance_squared(items@[b as int].1, *origin) == distance_squared(
                        items@[j].1,
                        *origin,
                    ) && b <= j
                } by {
                    assert(j < k);
                }
                lemma_nearest_is_unique(items@, b as int, *origin, reach as int, skip);
            },
            None => {
                assert forall|j: int| !eligible(items@, j, *origin, reach as int, skip) by {
                    if eligible(items@, j, *origin, reach as int, skip) {
                        assert(j < k);
                    }
                }
                lemma_nearest_is_none(items@, *origin, reach as int, skip);
            },
        }
    }
    best
}

} // verus!
