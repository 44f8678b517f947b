//! The sphere primitive and its closed-form ray intersection.

use vstd::prelude::*;

verus! {

use crate::fixed::SCALE;
use crate::fixed::spec_fmul;
use crate::fixed::spec_fdiv;
use crate::fixed::spec_fsqrt;
use crate::fixed::fmul;
use crate::fixed::fdiv;
use crate::fixed::fsqrt;
use crate::fixed::lemma_fmul_bound;
use crate::fixed::lemma_tdiv_bounds;
use crate::fixed::lemma_abs_mul_le;
use crate::vec3::Vec3;
use crate::vec3::lemma_length_squared_nonneg;
use crate::vec3::lemma_neg_flips;
use crate::ray::Ray;
use crate::ray::DIR_LIMIT;
use crate::ray::POINT_LIMIT;
use crate::hittable::HitRecord;
use crate::hittable::Hittable;
use crate::hittable::NORM_LIMIT;
use crate::hittable::NORMAL_TOL;
use crate::material::Material;

/// Magnitude cap on sphere centers and radii (2^24 steps, 256 units).
pub const CENTER_LIMIT: i64 = 16777216;

#[derive(Clone, Copy, Debug, PartialEq, Eq, Structural)]
pub struct Sphere {
    pub center: Vec3,
    pub radius: i64,
    pub material: Material,
}

impl Sphere {
    pub fn new(center: Vec3, radius: i64, material: Material) -> (r: Sphere)
        ensures
            r == (Sphere { center, radius, material }),
    {
        Sphere { center, radius, material }
    }
}

/// The hit that a sphere reports: solve the quadratic
/// `|origin + t d - center|^2 == radius^2` for `t`, prefer the smaller
/// root, and accept a root only inside `[t_min, t_max]`. Degenerate
/// fixed-point outcomes (a zero-length direction, a normal out of range
/// or with a computed length away from one) count as a miss.
pub open spec fn sphere_hit(s: Sphere, ray: Ray, t_min: i64, t_max: i64) -> Option<HitRecord> {
    let oc = ray.origin.spec_sub(s.center);
    let a = ray.direction.spec_length_squared();
    let half_b = oc.spec_dot(ray.direction);
    let c = oc.spec_length_squared() - spec_fmul(s.radius as int, s.radius as int);
    let disc = spec_fmul(half_b, half_b) - spec_fmul(a, c);
    if a <= 0 || disc < 0 {
        None
    } else {
        let sq = spec_fsqrt(disc);
        let root1 = spec_fdiv(-half_b - sq, a);
        let root2 = spec_fdiv(-half_b + sq, a);
        let root = if !(root1 < t_min || root1 > t_max) {
            root1
        } else if !(root2 < t_min || root2 > t_max) {
            root2
        } else {
            t_min as int - 1
        };
        if root < t_min {
            None
        } else {
            sphere_hit_at(s, ray, root)
        }
    }
}

/// The record a sphere builds once the root `root` is accepted.
pub open spec fn sphere_hit_at(s: Sphere, ray: Ray, root: int) -> Option<HitRecord> {
    let point = ray.spec_at(root);
    let outward = point.spec_sub(s.center).spec_div_by(s.radius as int);
    if !outward.bounded(NORM_LIMIT as int) || outward.spec_length_squared() < SCALE as int
        - NORMAL_TOL as int || outward.spec_length_squared() > SCALE as int + NORMAL_TOL as int {
        None
    } else {
        let front = ray.direction.spec_dot(outward) < 0;
        Some(
            HitRecord {
                point,
                normal: if front {
                    outward
                } else {
                    outward.spec_neg()
                },
                t: root as i64,
                front_face: front,
                material: s.material,
            },
        )
    }
}

impl Hittable for Sphere {
    /// A sphere is usable when its radius is positive and its geometry
    /// sits within `CENTER_LIMIT`.
    open spec fn wf(&self) -> bool {
        &&& 1 <= self.radius <= CENTER_LIMIT
        &&& self.center.bounded(CENTER_LIMIT as int)
        &&& self.material.wf()
    }

    open spec fn hit_spec(&self, ray: Ray, t_min: i64, t_max: i64) -> Option<HitRecord> {
        sphere_hit(*self, ray, t_min, t_max)
    }

    fn is_hit(&self, ray: &Ray, t_min: i64, t_max: i64) -> (r: Option<HitRecord>) {
        proof {
            lemma_sphere_quadratic_fits(*self, *ray);
        }
        let oc = ray.origin.sub(self.center);
        let a = ray.direction.length_squared();
        let half_b = Vec3::dot(&oc, &ray.direction);
        let c = oc.length_squared() - fmul(self.radius, self.radius);
        let disc = fmul(half_b, half_b) - fmul(a, c);
        if a <= 0 || disc < 0 {
            return None;
        }
        let sqrt_disc = fsqrt(disc);
        proof {
            lemma_sphere_roots_fit(half_b as int, sqrt_disc as int, a as int);
        }

        // Find the nearest root that lies in the acceptable range.
        let mut root = fdiv(-half_b - sqrt_disc, a);
        if root < t_min || root > t_max {
            root = fdiv(-half_b + sqrt_disc, a);
            if root < t_min || root > t_max {
                return None;
            }
        }

        let point = ray.at(root);
        let outward_normal = point.sub(self.center).div_by(self.radius);
        if !outward_normal.in_bounds(NORM_LIMIT) {
            return None;
        }
        let normal_ls = outward_normal.length_squared();
        if normal_ls < SCALE - NORMAL_TOL || normal_ls > SCALE + NORMAL_TOL {
            return None;
        }
        proof {
            lemma_neg_flips(outward_normal, outward_normal);
        }
        let mut hit_record = HitRecord {
            t: root,
            point,
            normal: Vec3::new(0, 0, 0),
            front_face: false,
            material: self.material,
        };
        hit_record.set_face_normal(ray, &outward_normal);

        Some(hit_record)
    }
}

/// Every intermediate of the sphere quadratic fits in an `i64`, given
/// the bounds on the ray and the sphere.
proof fn lemma_sphere_quadratic_fits(s: Sphere, ray: Ray)
    requires
        s.wf(),
        ray.origin.bounded(POINT_LIMIT as int),
        ray.direction.bounded(DIR_LIMIT as int),
    ensures
        ray.origin.spec_sub(s.center).bounded(0x200000000),
        -0x1800000000 <= ray.origin.spec_sub(s.center).spec_dot(ray.direction) <= 0x1800000000,
        0 <= ray.direction.spec_length_squared() <= 0x300000,
        0 <= ray.origin.spec_sub(s.center).spec_length_squared() <= 0xC000000000000,
        0 <= spec_fmul(s.radius as int, s.radius as int) <= 0x100000000,
        -0x240000000000000 <= spec_fmul(
            ray.origin.spec_sub(s.center).spec_dot(ray.direction),
            ray.origin.spec_sub(s.center).spec_dot(ray.direction),
        ) <= 0x240000000000000,
        -0x300000000000000 <= spec_fmul(
            ray.direction.spec_length_squared(),
            ray.origin.spec_sub(s.center).spec_length_squared() - spec_fmul(
                s.radius as int,
                s.radius as int,
            ),
        ) <= 0x300000000000000,
{
    let oc = ray.origin.spec_sub(s.center);
    lemma_fmul_bound(oc.x as int, ray.direction.x as int, 0x200000000, DIR_LIMIT as int);
    lemma_fmul_bound(oc.y as int, ray.direction.y as int, 0x200000000, DIR_LIMIT as int);
    lemma_fmul_bound(oc.z as int, ray.direction.z as int, 0x200000000, DIR_LIMIT as int);
    lemma_fmul_bound(ray.direction.x as int, ray.direction.x as int, DIR_LIMIT as int, DIR_LIMIT as int);
    lemma_fmul_bound(ray.direction.y as int, ray.direction.y as int, DIR_LIMIT as int, DIR_LIMIT as int);
    lemma_fmul_bound(ray.direction.z as int, ray.direction.z as int, DIR_LIMIT as int, DIR_LIMIT as int);
    lemma_length_squared_nonneg(ray.direction);
    lemma_fmul_bound(oc.x as int, oc.x as int, 0x200000000, 0x200000000);
    lemma_fmul_bound(oc.y as int, oc.y as int, 0x200000000, 0x200000000);
    lemma_fmul_bound(oc.z as int, oc.z as int, 0x200000000, 0x200000000);
    lemma_length_squared_nonneg(oc);
    lemma_fmul_bound(s.radius as int, s.radius as int, CENTER_LIMIT as int, CENTER_LIMIT as int);
    lemma_tdiv_bounds((CENTER_LIMIT as int) * (CENTER_LIMIT as int), SCALE as int);
    assert(s.radius * s.radius >= 0) by (nonlinear_arith);
    lemma_tdiv_bounds((s.radius as int) * (s.radius as int), SCALE as int);
    let half_b = oc.spec_dot(ray.direction);
    lemma_fmul_bound(half_b, half_b, 0x1800000000, 0x1800000000);
    let a = ray.direction.spec_length_squared();
    let c = oc.spec_length_squared() - spec_fmul(s.radius as int, s.radius as int);
    lemma_fmul_bound(a, c, 0x300000, 0x10000000000000);
}

/// The two quadratic roots fit in an `i64` and arrive in order.
proof fn lemma_sphere_roots_fit(half_b: int, sq: int, a: int)
    requires
        -0x1800000000 <= half_b <= 0x1800000000,
        0 <= sq < 0x10000000000,
        1 <= a,
    ensures
        i64::MIN <= spec_fdiv(-half_b - sq, a) <= i64::MAX,
        i64::MIN <= spec_fdiv(-half_b + sq, a) <= i64::MAX,
        spec_fdiv(-half_b - sq, a) <= spec_fdiv(-half_b + sq, a),
{
    lemma_abs_mul_le(-half_b - sq, SCALE as int, 0x11800000000, SCALE as int);
    lemma_abs_mul_le(-half_b + sq, SCALE as int, 0x11800000000, SCALE as int);
    crate::fixed::lemma_tdiv_mono((-half_b - sq) * (SCALE as int), 0x11800000000 * (SCALE as int), a);
    crate::fixed::lemma_tdiv_mono(-(0x11800000000 * (SCALE as int)), (-half_b - sq) * (SCALE as int), a);
    crate::fixed::lemma_tdiv_mono((-half_b + sq) * (SCALE as int), 0x11800000000 * (SCALE as int), a);
    crate::fixed::lemma_tdiv_mono(-(0x11800000000 * (SCALE as int)), (-half_b + sq) * (SCALE as int), a);
    lemma_tdiv_bounds(0x11800000000 * (SCALE as int), a);
    assert(crate::fixed::tdiv(-(0x11800000000 * (SCALE as int)), a) == -crate::fixed::tdiv(
        0x11800000000 * (SCALE as int),
        a,
    ));
    assert((-half_b - sq) * (SCALE as int) <= (-half_b + sq) * (SCALE as int)) by (nonlinear_arith)
        requires sq >= 0;
    crate::fixed::lemma_tdiv_mono((-half_b - sq) * (SCALE as int), (-half_b + sq) * (SCALE as int), a);
}

} // verus!
