//! The tracer's decisions: when a ray ends in the background, when a light
//! is shadowed, and how much of a light a surface faces.

use vstd::prelude::*;
use vstd::arithmetic::power2::{pow2, lemma2_to64, lemma_pow2_unfold};
use crate::intersect::{is_nearest_hit, lemma_miss_means_nothing_near, lemma_nearest_wins, Hit};
use crate::key::{is_nan, rank, signed_key};

verus! {

/// The greatest depth at which a ray is still shaded. Primary rays have depth
/// zero; each reflection or refraction adds one.
pub const MAX_DEPTH: usize = 4;

/// What the tracer does with a ray.
#[derive(Clone, Copy, Debug, PartialEq, Eq, Structural)]
pub enum Step {
    /// The ray ends: its colour is the background in its direction, with no
    /// lighting added.
    Background,
    /// The ray is shaded where it struck, and its reflection and refraction
    /// are traced at depth `child_depth`.
    Shade { child_depth: usize },
}

/// The step for a ray at `depth` when rays are shaded down to depth `limit`;
/// `struck` says whether the ray struck anything.
pub open spec fn step_of(depth: usize, limit: usize, struck: bool) -> Step {
    if struck && depth <= limit {
        Step::Shade { child_depth: (depth + 1) as usize }
    } else {
        Step::Background
    }
}

/// Decides what to do with a ray at `depth`. A ray that struck nothing, or
/// whose depth is past `limit`, ends in the background.
pub fn step(depth: usize, limit: usize, struck: bool) -> (s: Step)
    requires
        limit < usize::MAX,
    ensures
        s == step_of(depth, limit, struck),
{
    if struck && depth <= limit {
        Step::Shade { child_depth: depth + 1 }
    } else {
        Step::Background
    }
}

/// The number of rays traced for one ray at `depth` when every ray strikes
/// something: the ray itself and, while it is shaded, the rays of its
/// reflection and of its refraction.
pub open spec fn ray_budget(depth: nat, limit: nat) -> nat
    decreases limit + 1 - depth,
{
    if depth > limit {
        1
    } else {
        1 + 2 * ray_budget(depth + 1, limit)
    }
}

/// The depth limit bounds the work: a ray at `depth` costs one ray less than
/// two to the number of levels from `depth` to one past the limit.
pub proof fn lemma_ray_budget(depth: nat, limit: nat)
    requires
        depth <= limit + 1,
    ensures
        ray_budget(depth, limit) + 1 == pow2((limit + 2 - depth) as nat),
    decreases limit + 1 - depth,
{
    if depth > limit {
        lemma2_to64();
    } else {
        lemma_pow2_unfold((limit + 2 - depth) as nat);
        lemma_ray_budget(depth + 1, limit);
    }
}

/// Tracing one primary ray with the usual limit never takes more than
/// sixty-three rays.
pub proof fn lemma_primary_ray_budget()
    ensures
        ray_budget(0, MAX_DEPTH as nat) == 63,
{
    lemma_ray_budget(0, MAX_DEPTH as nat);
    lemma2_to64();
}

/// A ray that reaches no sphere and no plane inside the horizon ends in the
/// background, at every depth.
pub proof fn lemma_miss_ends_in_background(
    depth: usize,
    limit: usize,
    spheres: Seq<Option<u32>>,
    plane: Option<u32>,
    horizon: u32,
    hit: Option<Hit>,
)
    requires
        is_nearest_hit(spheres, plane, horizon, hit),
        forall|j: int|
            0 <= j < spheres.len() && spheres[j].is_some() ==> horizon
                <= #[trigger] spheres[j].unwrap(),
        plane.is_some() ==> horizon <= plane.unwrap(),
    ensures
        step_of(depth, limit, hit.is_some()) == Step::Background,
{
    lemma_miss_means_nothing_near(spheres, plane, horizon, hit);
}

/// Whether something stands between a point and a light: the shadow ray
/// struck at `blocker`, strictly nearer than the light at `light_distance`.
/// Each is the key of a distance, or `None` for a distance that is not a
/// number, which is nearer than nothing and farther than nothing.
pub open spec fn shadowed(blocker: Option<u32>, light_distance: Option<u32>) -> bool {
    blocker.is_some() && light_distance.is_some() && blocker.unwrap() < light_distance.unwrap()
}

/// Whether a light is shadowed at a point, given where the shadow ray cast
/// from the point toward the light struck, if it struck anything. A shadowed
/// light adds neither diffuse nor specular light.
pub fn occluded(blocker: Option<u32>, light_distance: Option<u32>) -> (dark: bool)
    ensures
        dark == shadowed(blocker, light_distance),
{
    match (blocker, light_distance) {
        (Some(d), Some(l)) => d < l,
        _ => false,
    }
}

/// How far a surface faces a direction, given the cosine of the angle between
/// its normal and the direction: the cosine itself while it is above zero,
/// and zero once the surface faces away or the cosine is not a number.
pub open spec fn facing_of(cosine: u32) -> u32 {
    if !is_nan(cosine) && rank(cosine) > 0 {
        cosine
    } else {
        0
    }
}

/// Cuts a cosine off at zero: light from behind a surface adds nothing.
pub fn facing(cosine: u32) -> (lit: u32)
    ensures
        lit == facing_of(cosine),
{
    match signed_key(cosine) {
        Some(k) => {
            if k > 0 {
                cosine
            } else {
                0
            }
        },
        None => 0,
    }
}

/// Light never counts against a surface, and falls off in step with the
/// cosine: what faces a light is lit by its cosine, what faces away is dark,
/// and of two cosines the smaller never lights more.
pub proof fn lemma_facing_falls_off(a: u32, b: u32)
    ensures
        !is_nan(facing_of(a)),
        rank(facing_of(a)) >= 0,
        !is_nan(a) && rank(a) > 0 ==> facing_of(a) == a,
        !is_nan(a) && rank(a) <= 0 ==> rank(facing_of(a)) == 0,
        !is_nan(a) && !is_nan(b) && rank(a) <= rank(b) ==> rank(facing_of(a)) <= rank(
            facing_of(b),
        ),
        !is_nan(a) && !is_nan(b) && 0 < rank(a) < rank(b) ==> rank(facing_of(a)) < rank(
            facing_of(b),
        ),
{
}

/// A sphere that the shadow ray reaches inside the horizon and nearer than the
/// light shadows it: whatever the shadow ray strikes is then no farther than
/// that sphere.
pub proof fn lemma_blocker_shadows(
    spheres: Seq<Option<u32>>,
    plane: Option<u32>,
    horizon: u32,
    hit: Option<Hit>,
    blocker: int,
    light_distance: u32,
)
    requires
        is_nearest_hit(spheres, plane, horizon, hit),
        0 <= blocker < spheres.len(),
        spheres[blocker].is_some(),
        spheres[blocker].unwrap() < horizon,
        spheres[blocker].unwrap() < light_distance,
    ensures
        hit.is_some(),
        shadowed(Some(hit.unwrap().reach()), Some(light_distance)),
{
    lemma_miss_means_nothing_near(spheres, plane, horizon, hit);
    lemma_nearest_wins(spheres, plane, horizon, hit.unwrap());
}

} // verus!
