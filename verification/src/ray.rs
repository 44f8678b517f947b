//! Rays: an origin plus a direction, evaluated at a parameter `t`.

use vstd::prelude::*;

verus! {

use crate::fixed::spec_fmul;
use crate::vec3::Vec3;
use crate::fixed::lemma_fmul_bound;

/// Magnitude cap on ray directions (2^18 steps, four units): camera rays
/// and scattered bounce directions stay well inside it.
pub const DIR_LIMIT: i64 = 262144;

/// Magnitude cap on ray origins (2^32 steps, 65536 units of world space).
pub const POINT_LIMIT: i64 = 4294967296;

/// Largest ray parameter the renderer queries: the stand-in for an
/// unbounded search window (2^30 steps, 16384 units).
pub const T_LIMIT: i64 = 1073741824;

#[derive(Clone, Copy, Debug, PartialEq, Eq, Structural)]
pub struct Ray {
    pub origin: Vec3,
    pub direction: Vec3,
}

impl Ray {
    /// The point `origin + t * direction`.
    pub open spec fn spec_at(self, t: int) -> Vec3 {
        self.origin.spec_add(self.direction.spec_scale(t))
    }

    pub fn new(origin: Vec3, direction: Vec3) -> (r: Ray)
        ensures
            r == (Ray { origin, direction }),
    {
        Ray { origin, direction }
    }

    pub fn at(&self, t: i64) -> (r: Vec3)
        requires
            self.origin.bounded(2 * POINT_LIMIT as int),
            self.direction.bounded(DIR_LIMIT as int),
            -T_LIMIT <= t <= T_LIMIT,
        ensures
            r == self.spec_at(t as int),
            r.bounded(3 * POINT_LIMIT as int),
    {
        proof {
            lemma_at_fits(*self, t as int);
        }
        self.origin.add(self.direction.scale(t))
    }
}

proof fn lemma_at_fits(ray: Ray, t: int)
    requires
        ray.origin.bounded(2 * POINT_LIMIT as int),
        ray.direction.bounded(DIR_LIMIT as int),
        -T_LIMIT <= t <= T_LIMIT,
    ensures
        -POINT_LIMIT <= spec_fmul(ray.direction.x as int, t) <= POINT_LIMIT,
        -POINT_LIMIT <= spec_fmul(ray.direction.y as int, t) <= POINT_LIMIT,
        -POINT_LIMIT <= spec_fmul(ray.direction.z as int, t) <= POINT_LIMIT,
{
    lemma_fmul_bound(ray.direction.x as int, t, DIR_LIMIT as int, T_LIMIT as int);
    lemma_fmul_bound(ray.direction.y as int, t, DIR_LIMIT as int, T_LIMIT as int);
    lemma_fmul_bound(ray.direction.z as int, t, DIR_LIMIT as int, T_LIMIT as int);
}

impl Default for Ray {
    /// The zero ray, the sentinel value a material overwrites when it
    /// scatters.
    fn default() -> (r: Ray)
        ensures
            r.origin == (Vec3 { x: 0, y: 0, z: 0 }),
            r.direction == (Vec3 { x: 0, y: 0, z: 0 }),
    {
        Ray { origin: Vec3 { x: 0, y: 0, z: 0 }, direction: Vec3 { x: 0, y: 0, z: 0 } }
    }
}

} // verus!
