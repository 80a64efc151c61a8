//! The intersector as a whole: from what the arithmetic found out about each
//! surface to the one surface that the ray strikes.

use vstd::prelude::*;
use crate::board::{plane_of, plane_reach};
use crate::intersect::{is_nearest_hit, nearest_hit, reach_of, sphere_reach, Hit, HORIZON};

verus! {

/// What the arithmetic found out about a ray and one sphere, as patterns.
#[derive(Clone, Copy, Debug, PartialEq, Eq, Structural)]
pub struct SphereReading {
    /// The square of the distance from the sphere's centre to the line of the
    /// ray.
    pub offset_sq: u32,
    /// The square of the sphere's radius.
    pub radius_sq: u32,
    /// The position along the ray of the nearer crossing.
    pub near: u32,
    /// The position along the ray of the farther crossing.
    pub far: u32,
}

/// What the arithmetic found out about a ray and the plane of the
/// checkerboard, as patterns.
#[derive(Clone, Copy, Debug, PartialEq, Eq, Structural)]
pub struct PlaneReading {
    /// The vertical component of the ray's direction.
    pub slope: u32,
    /// The distance along the ray to the plane.
    pub distance: u32,
    /// The `x` coordinate of the point where the ray meets the plane.
    pub x: u32,
    /// The `z` coordinate of that point.
    pub z: u32,
}

impl SphereReading {
    /// The key of the distance at which the ray reaches the sphere, if it
    /// does.
    pub open spec fn reach(self) -> Option<u32> {
        reach_of(self.offset_sq, self.radius_sq, self.near, self.far)
    }
}

impl PlaneReading {
    /// The key of the distance at which the ray meets the board, if it does.
    pub open spec fn reach(self) -> Option<u32> {
        plane_of(self.slope, self.distance, self.x, self.z)
    }
}

/// The reach of each sphere, in the order of the readings.
pub open spec fn reaches(spheres: Seq<SphereReading>) -> Seq<Option<u32>> {
    Seq::new(spheres.len(), |i: int| spheres[i].reach())
}

/// What a ray strikes in a scene of spheres above the checkerboard: the
/// nearest of the spheres it reaches and the board, within a thousand units.
/// The index of a sphere in the result is that of its reading.
pub fn scene_hit(spheres: &Vec<SphereReading>, plane: &PlaneReading) -> (hit: Option<Hit>)
    ensures
        is_nearest_hit(reaches(spheres@), plane.reach(), HORIZON, hit),
{
    let mut reached: Vec<Option<u32>> = Vec::new();
    let mut i: usize = 0;
    while i < spheres.len()
        invariant
            i <= spheres.len(),
            reached@ =~= reaches(spheres@.take(i as int)),
        decreases spheres.len() - i,
    {
        let s = spheres[i];
        reached.push(sphere_reach(s.offset_sq, s.radius_sq, s.near, s.far));
        proof {
            assert(spheres@.take(i as int + 1) =~= spheres@.take(i as int).push(s));
        }
        i += 1;
    }
    proof {
        assert(spheres@.take(spheres.len() as int) =~= spheres@);
    }
    let board = plane_reach(plane.slope, plane.distance, plane.x, plane.z);
    nearest_hit(&reached, board, HORIZON)
}

} // verus!
