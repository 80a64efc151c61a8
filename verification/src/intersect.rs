//! The intersector's policy: of everything a ray reaches, the nearest wins.
//!
//! Distances along the ray are compared by their keys: of two keys, the
//! smaller is the nearer point. A surface that the ray does not reach has no
//! key.

use vstd::prelude::*;
use crate::key::{
    below_zero, distance_key, is_below_zero, is_less, is_nan, less, rank, FARTHEST,
};

verus! {

/// The key of one thousand, the distance from which on nothing is rendered.
pub const HORIZON: u32 = 0x447A_0000;

/// What a ray struck.
#[derive(Clone, Copy, Debug, PartialEq, Eq, Structural)]
pub enum Hit {
    /// The sphere at `index` in the scene's list.
    Sphere { index: usize, distance: u32 },
    /// The checkerboard plane. `beyond` is the nearest sphere along the same
    /// ray, if the ray reaches one: it lies farther away than the plane, and
    /// the plane takes every material property but its colour from it.
    Plane { distance: u32, beyond: Option<usize> },
}

impl Hit {
    /// The key of the distance from the ray's origin to the struck point.
    pub open spec fn reach(self) -> u32 {
        match self {
            Hit::Sphere { distance, .. } => distance,
            Hit::Plane { distance, .. } => distance,
        }
    }

    /// The key of the distance from the ray's origin to the struck point.
    pub fn distance(&self) -> (d: u32)
        ensures
            d == self.reach(),
    {
        match self {
            Hit::Sphere { distance, .. } => *distance,
            Hit::Plane { distance, .. } => *distance,
        }
    }
}

/// The key of the distance at which a ray comes upon a sphere that it crosses
/// at `near` and again at `far`, both given as patterns of positions along the
/// ray. The nearer crossing counts unless it lies behind the origin, then the
/// farther one; a crossing that is behind the origin, not a number, or not
/// below the largest finite distance is out of reach.
pub open spec fn root_of(near: u32, far: u32) -> Option<u32> {
    let chosen = if is_below_zero(near) {
        far
    } else {
        near
    };
    if !is_nan(chosen) && 0 <= rank(chosen) < FARTHEST {
        Some(rank(chosen) as u32)
    } else {
        None
    }
}

/// Chooses between the two crossings of a ray with a sphere: the nearer one
/// if it lies ahead, else the farther one, and none when both lie behind the
/// origin.
pub fn visible_root(near: u32, far: u32) -> (root: Option<u32>)
    ensures
        root == root_of(near, far),
{
    let chosen = if below_zero(near) {
        far
    } else {
        near
    };
    match distance_key(chosen) {
        Some(d) => {
            if d < FARTHEST {
                Some(d)
            } else {
                None
            }
        },
        None => None,
    }
}

/// A sphere both of whose crossings lie behind the origin is never reached,
/// and one whose nearer crossing lies ahead, below the largest finite
/// distance, is reached at that crossing.
pub proof fn lemma_root_is_first_crossing_ahead(near: u32, far: u32)
    ensures
        is_below_zero(near) && is_below_zero(far) ==> root_of(near, far).is_none(),
        !is_nan(near) && 0 <= rank(near) < FARTHEST ==> root_of(near, far) == Some(
            rank(near) as u32,
        ),
        is_below_zero(near) && !is_nan(far) && 0 <= rank(far) < FARTHEST ==> root_of(near, far)
            == Some(rank(far) as u32),
{
}

/// The key of the distance at which a ray comes upon a sphere. `offset_sq`
/// is the square of the distance from the sphere's centre to the line of the
/// ray, `radius_sq` the square of the radius, `near` and `far` the two
/// crossings; all are patterns. A ray whose line passes the centre farther off
/// than the radius misses the sphere; otherwise the crossings decide.
pub open spec fn reach_of(offset_sq: u32, radius_sq: u32, near: u32, far: u32) -> Option<u32> {
    if is_less(radius_sq, offset_sq) {
        None
    } else {
        root_of(near, far)
    }
}

/// Decides whether a ray reaches a sphere, and at which distance.
pub fn sphere_reach(offset_sq: u32, radius_sq: u32, near: u32, far: u32) -> (reach: Option<u32>)
    ensures
        reach == reach_of(offset_sq, radius_sq, near, far),
{
    if less(radius_sq, offset_sq) {
        None
    } else {
        visible_root(near, far)
    }
}

/// No sphere is reached at all.
pub open spec fn none_reached(spheres: Seq<Option<u32>>) -> bool {
    forall|j: int| 0 <= j < spheres.len() ==> spheres[j].is_none()
}

/// Sphere `i` is reached, no sphere is reached nearer, and every sphere
/// listed before it is reached strictly farther: among equally near spheres
/// the first listed is the nearest.
pub open spec fn is_nearest_sphere(spheres: Seq<Option<u32>>, i: int) -> bool {
    &&& 0 <= i < spheres.len()
    &&& spheres[i].is_some()
    &&& forall|j: int|
        0 <= j < spheres.len() && spheres[j].is_some() ==> spheres[i].unwrap()
            <= #[trigger] spheres[j].unwrap()
    &&& forall|j: int|
        0 <= j < i && spheres[j].is_some() ==> spheres[i].unwrap() < #[trigger] spheres[j].unwrap()
}

/// Whether `hit` is what a ray strikes, given the key of each sphere it
/// reaches, the key of the plane if it reaches the plane inside its bounds,
/// and the key of the greatest distance at which anything is still rendered.
///
/// The plane is struck only where it is strictly nearer than the nearest
/// sphere; otherwise that sphere is struck. Whatever is struck at or beyond
/// the horizon is no hit.
pub open spec fn is_nearest_hit(
    spheres: Seq<Option<u32>>,
    plane: Option<u32>,
    horizon: u32,
    hit: Option<Hit>,
) -> bool {
    match hit {
        Some(Hit::Sphere { index, distance }) => {
            &&& is_nearest_sphere(spheres, index as int)
            &&& spheres[index as int] == Some(distance)
            &&& distance < horizon
            &&& plane.is_some() ==> distance <= plane.unwrap()
        },
        Some(Hit::Plane { distance, beyond }) => {
            &&& plane == Some(distance)
            &&& distance < horizon
            &&& match beyond {
                Some(index) => is_nearest_sphere(spheres, index as int) && distance
                    < spheres[index as int].unwrap(),
                None => none_reached(spheres),
            }
        },
        None => {
            &&& forall|j: int|
                0 <= j < spheres.len() && spheres[j].is_some() ==> horizon
                    <= #[trigger] spheres[j].unwrap()
            &&& plane.is_some() ==> horizon <= plane.unwrap()
        },
    }
}

/// The nearest sphere a ray reaches: the first listed among those with the
/// smallest key, or `None` exactly when the ray reaches no sphere.
pub fn nearest_sphere(spheres: &Vec<Option<u32>>) -> (best: Option<usize>)
    ensures
        match best {
            Some(i) => is_nearest_sphere(spheres@, i as int),
            None => none_reached(spheres@),
        },
{
    let mut best: Option<usize> = None;
    let mut best_key: u32 = 0;
    let mut j: usize = 0;
    while j < spheres.len()
        invariant
            j <= spheres.len(),
            match best {
                Some(i) => {
                    &&& is_nearest_sphere(spheres@.take(j as int), i as int)
                    &&& spheres@[i as int] == Some(best_key)
                },
                None => none_reached(spheres@.take(j as int)),
            },
        decreases spheres.len() - j,
    {
        match spheres[j] {
            Some(key) => {
                let nearer = match best {
                    Some(_) => key < best_key,
                    None => true,
                };
                if nearer {
                    best = Some(j);
                    best_key = key;
                }
            },
            None => {},
        }
        j += 1;
    }
    assert(spheres@.take(spheres.len() as int) =~= spheres@);
    best
}

/// What a ray strikes: the nearest of the spheres and the plane, and nothing
/// when the nearest lies at or beyond the horizon.
pub fn nearest_hit(spheres: &Vec<Option<u32>>, plane: Option<u32>, horizon: u32) -> (hit: Option<
    Hit,
>)
    ensures
        is_nearest_hit(spheres@, plane, horizon, hit),
{
    let best = nearest_sphere(spheres);
    match (best, plane) {
        (None, None) => None,
        (None, Some(p)) => {
            if p < horizon {
                Some(Hit::Plane { distance: p, beyond: None })
            } else {
                None
            }
        },
        (Some(i), None) => {
            let d = spheres[i].unwrap();
            if d < horizon {
                Some(Hit::Sphere { index: i, distance: d })
            } else {
                None
            }
        },
        (Some(i), Some(p)) => {
            let d = spheres[i].unwrap();
            if p < d {
                if p < horizon {
                    Some(Hit::Plane { distance: p, beyond: Some(i) })
                } else {
                    None
                }
            } else if d < horizon {
                Some(Hit::Sphere { index: i, distance: d })
            } else {
                None
            }
        },
    }
}

/// The nearest sphere is unique: the rule for equally near spheres leaves no
/// choice.
pub proof fn lemma_nearest_sphere_unique(spheres: Seq<Option<u32>>, i: int, k: int)
    requires
        is_nearest_sphere(spheres, i),
        is_nearest_sphere(spheres, k),
    ensures
        i == k,
{
    if i < k {
        assert(spheres[k].unwrap() < spheres[i].unwrap());
    } else if k < i {
        assert(spheres[i].unwrap() < spheres[k].unwrap());
    }
}

/// What a ray strikes is determined by what it reaches: two answers that both
/// satisfy the nearest-wins rule are the same answer.
pub proof fn lemma_nearest_hit_unique(
    spheres: Seq<Option<u32>>,
    plane: Option<u32>,
    horizon: u32,
    first: Option<Hit>,
    second: Option<Hit>,
)
    requires
        is_nearest_hit(spheres, plane, horizon, first),
        is_nearest_hit(spheres, plane, horizon, second),
    ensures
        first == second,
{
    match (first, second) {
        (Some(a), Some(b)) => {
            let near_a = match a {
                Hit::Sphere { index, .. } => Some(index),
                Hit::Plane { beyond, .. } => beyond,
            };
            let near_b = match b {
                Hit::Sphere { index, .. } => Some(index),
                Hit::Plane { beyond, .. } => beyond,
            };
            if near_a.is_some() && near_b.is_some() {
                lemma_nearest_sphere_unique(
                    spheres,
                    near_a.unwrap() as int,
                    near_b.unwrap() as int,
                );
            } else if near_a.is_some() {
                assert(spheres[near_a.unwrap() as int].is_some());
            } else if near_b.is_some() {
                assert(spheres[near_b.unwrap() as int].is_some());
            }
        },
        (Some(a), None) => {
            lemma_struck_is_near(spheres, plane, horizon, a);
        },
        (None, Some(b)) => {
            lemma_struck_is_near(spheres, plane, horizon, b);
        },
        (None, None) => {},
    }
}

/// Whatever is struck is itself reached inside the horizon: a sphere that is
/// struck has the hit's key, and so has the plane when it is struck.
pub proof fn lemma_struck_is_near(
    spheres: Seq<Option<u32>>,
    plane: Option<u32>,
    horizon: u32,
    hit: Hit,
)
    requires
        is_nearest_hit(spheres, plane, horizon, Some(hit)),
    ensures
        hit.reach() < horizon,
        match hit {
            Hit::Sphere { index, distance } => 0 <= index < spheres.len() && spheres[index as int]
                == Some(distance),
            Hit::Plane { distance, .. } => plane == Some(distance),
        },
        !is_nearest_hit(spheres, plane, horizon, None),
{
    match hit {
        Hit::Sphere { index, distance } => {
            assert(spheres[index as int].unwrap() == distance);
        },
        Hit::Plane { .. } => {},
    }
}

/// Nearest wins: a hit is never farther than any sphere the ray reaches, nor
/// than the plane, and it lies inside the horizon.
pub proof fn lemma_nearest_wins(
    spheres: Seq<Option<u32>>,
    plane: Option<u32>,
    horizon: u32,
    hit: Hit,
)
    requires
        is_nearest_hit(spheres, plane, horizon, Some(hit)),
    ensures
        hit.reach() < horizon,
        forall|j: int|
            0 <= j < spheres.len() && spheres[j].is_some() ==> hit.reach()
                <= #[trigger] spheres[j].unwrap(),
        plane.is_some() ==> hit.reach() <= plane.unwrap(),
{
}

/// A ray that reaches something inside the horizon strikes something: a miss
/// is reported only when every sphere and the plane are out of reach.
pub proof fn lemma_miss_means_nothing_near(
    spheres: Seq<Option<u32>>,
    plane: Option<u32>,
    horizon: u32,
    hit: Option<Hit>,
)
    requires
        is_nearest_hit(spheres, plane, horizon, hit),
    ensures
        hit.is_none() <==> {
            &&& forall|j: int|
                0 <= j < spheres.len() && spheres[j].is_some() ==> horizon
                    <= #[trigger] spheres[j].unwrap()
            &&& plane.is_some() ==> horizon <= plane.unwrap()
        },
{
    if let Some(h) = hit {
        lemma_struck_is_near(spheres, plane, horizon, h);
    }
}

} // verus!
