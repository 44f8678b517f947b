//! The intersection capability and the record of one hit.

use vstd::prelude::*;

verus! {

use crate::fixed::SCALE;
use crate::vec3::Vec3;
use crate::vec3::VEC_LIMIT;
use crate::ray::Ray;
use crate::ray::DIR_LIMIT;
use crate::ray::POINT_LIMIT;
use crate::ray::T_LIMIT;
use crate::material::Material;

/// Magnitude cap on face-corrected surface normals (2^17 steps, two
/// units): a well-formed primitive reports normals of about unit length.
pub const NORM_LIMIT: i64 = 131072;

#[derive(Clone, Copy, Debug, PartialEq, Eq, Structural)]
pub struct HitRecord {
    /// World-space intersection point.
    pub point: Vec3,
    /// Unit-length normal, face-corrected to point against the incoming ray.
    pub normal: Vec3,
    /// Ray parameter of the hit.
    pub t: i64,
    /// True when the ray struck the outside of the surface.
    pub front_face: bool,
    /// The material of the struck primitive.
    pub material: Material,
}

/// How far the computed squared length of a reported normal may stray
/// from one: 256 fixed-point steps, about 0.4%.
pub const NORMAL_TOL: i64 = 256;

/// The geometric guarantees every returned hit record carries: a point
/// within the coordinate budget, a normal of approximately unit
/// computed length, and a well-formed material.
pub open spec fn hit_ok(h: HitRecord) -> bool {
    &&& h.point.bounded(3 * POINT_LIMIT as int)
    &&& h.normal.bounded(NORM_LIMIT as int)
    &&& SCALE as int - NORMAL_TOL as int <= h.normal.spec_length_squared() <= SCALE as int
        + NORMAL_TOL as int
    &&& h.material.wf()
}

impl HitRecord {
    /// Orient `outward_normal` against the ray: record whether the ray
    /// came from outside, and flip the stored normal if it did not.
    pub fn set_face_normal(&mut self, ray: &Ray, outward_normal: &Vec3)
        requires
            ray.direction.bounded(VEC_LIMIT as int),
            outward_normal.bounded(VEC_LIMIT as int),
            outward_normal.x != i64::MIN,
            outward_normal.y != i64::MIN,
            outward_normal.z != i64::MIN,
        ensures
            final(self).front_face == (ray.direction.spec_dot(*outward_normal) < 0),
            final(self).normal == if ray.direction.spec_dot(*outward_normal) < 0 {
                *outward_normal
            } else {
                outward_normal.spec_neg()
            },
            final(self).point == old(self).point,
            final(self).t == old(self).t,
            final(self).material == old(self).material,
    {
        self.front_face = Vec3::dot(&ray.direction, outward_normal) < 0;
        self.normal = if self.front_face {
            *outward_normal
        } else {
            outward_normal.neg()
        };
    }
}

/// The capability of everything a ray can strike: report the nearest hit
/// within the parametric window `[t_min, t_max]`, or nothing.
pub trait Hittable: Sized {
    /// Well-formedness of the receiver: what intersection relies on.
    spec fn wf(&self) -> bool;

    /// The hit that `is_hit` reports, as a function of its inputs.
    spec fn hit_spec(&self, ray: Ray, t_min: i64, t_max: i64) -> Option<HitRecord>;

    /// Test the ray against the receiver. A reported hit lies inside the
    /// queried window, its point is the ray evaluated at its parameter,
    /// and its normal is face-corrected (recorded in `front_face`).
    fn is_hit(&self, ray: &Ray, t_min: i64, t_max: i64) -> (r: Option<HitRecord>)
        requires
            self.wf(),
            ray.origin.bounded(POINT_LIMIT as int),
            ray.direction.bounded(DIR_LIMIT as int),
            0 <= t_min,
            t_max <= T_LIMIT,
        ensures
            r == self.hit_spec(*ray, t_min, t_max),
            r matches Some(h) ==> {
                &&& t_min <= h.t <= t_max
                &&& h.point == ray.spec_at(h.t as int)
                &&& hit_ok(h)
            },
    ;
}

} // verus!
