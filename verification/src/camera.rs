//! A pinhole camera: normalized viewport coordinates to world-space rays.

use vstd::prelude::*;

verus! {

use crate::fixed::SCALE;
use crate::fixed::spec_fmul;
use crate::fixed::fmul;
use crate::fixed::lemma_fmul_bound;
use crate::vec3::Vec3;
use crate::ray::Ray;
use crate::ray::DIR_LIMIT;
use crate::ray::POINT_LIMIT;

/// Magnitude cap on the camera's viewport geometry (2^19 steps, eight
/// units).
pub const CAM_LIMIT: i64 = 524288;

#[derive(Clone, Copy, Debug, PartialEq, Eq, Structural)]
pub struct Camera {
    pub origin: Vec3,
    pub lower_left: Vec3,
    pub horizontal: Vec3,
    pub vertical: Vec3,
}

/// The ray direction the camera computes for viewport coordinates
/// `(u, v)`; a direction driven out of range by extreme inputs (never
/// the case for coordinates in `[0, 1]` and a modest viewport) falls
/// back to straight ahead.
pub open spec fn spec_viewport_dir(cam: Camera, u: int, v: int) -> Vec3 {
    let d = cam.lower_left.spec_add(cam.horizontal.spec_scale(u)).spec_add(
        cam.vertical.spec_scale(v),
    ).spec_sub(cam.origin);
    if d.bounded(DIR_LIMIT as int) {
        d
    } else {
        Vec3 { x: 0, y: 0, z: (-SCALE) as i64 }
    }
}

/// A camera whose viewport plane sits at a fixed `z = -1` (as the
/// default camera's does) produces only directions long enough to
/// normalize: every ray keeps the full `-1` z component.
pub proof fn lemma_camera_directions_normalize(cam: Camera)
    requires
        cam.horizontal.z == 0,
        cam.vertical.z == 0,
        cam.origin.z == 0,
        cam.lower_left.z == -SCALE,
    ensures
        forall|u: int, v: int| #[trigger] spec_viewport_dir(cam, u, v).spec_length_squared() >= 1,
{
    assert forall|u: int, v: int| #[trigger] spec_viewport_dir(
        cam,
        u,
        v,
    ).spec_length_squared() >= 1 by {
        let d0 = cam.lower_left.spec_add(cam.horizontal.spec_scale(u)).spec_add(
            cam.vertical.spec_scale(v),
        ).spec_sub(cam.origin);
        assert(0 * u == 0 && 0 * v == 0) by (nonlinear_arith);
        vstd::arithmetic::div_mod::lemma_div_of0(SCALE as int);
        assert(d0.z == -SCALE);
        assert(spec_fmul(-(SCALE as int), -(SCALE as int)) == SCALE as int) by {
            crate::fixed::lemma_tdiv_cancel(SCALE as int, SCALE as int);
            assert((-(SCALE as int)) * (-(SCALE as int)) == (SCALE as int) * (SCALE as int))
                by (nonlinear_arith);
        }
        let d = spec_viewport_dir(cam, u, v);
        assert(d.z == -SCALE);
        crate::vec3::lemma_length_squared_nonneg(d);
        assert(d.spec_length_squared() >= SCALE as int);
    }
}

impl Camera {
    pub open spec fn wf(&self) -> bool {
        &&& self.origin.bounded(CAM_LIMIT as int)
        &&& self.lower_left.bounded(CAM_LIMIT as int)
        &&& self.horizontal.bounded(CAM_LIMIT as int)
        &&& self.vertical.bounded(CAM_LIMIT as int)
    }

    /// The simplest viewport: height two units, width scaled by the
    /// aspect ratio, focal length one, eye at the origin. The aspect
    /// ratio is capped at four so that the viewport stays within the
    /// camera's fixed-point budget (`CAM_LIMIT`).
    pub fn new(aspect_ratio: i64) -> (r: Camera)
        requires
            1 <= aspect_ratio <= 4 * SCALE,
        ensures
            r.wf(),
            r.origin == (Vec3 { x: 0, y: 0, z: 0 }),
            r.horizontal == (Vec3 { x: spec_fmul(aspect_ratio as int, 2 * SCALE as int) as i64, y: 0, z: 0 }),
            r.vertical == (Vec3 { x: 0, y: (2 * SCALE) as i64, z: 0 }),
            r.lower_left == (Vec3 {
                x: (-(spec_fmul(aspect_ratio as int, 2 * SCALE as int) / 2)) as i64,
                y: (-SCALE) as i64,
                z: (-SCALE) as i64,
            }),
    {
        proof {
            lemma_fmul_bound(aspect_ratio as int, 2 * SCALE as int, 4 * SCALE as int, 2 * SCALE as int);
            assert(aspect_ratio * (2 * SCALE as int) >= 0) by (nonlinear_arith)
                requires aspect_ratio >= 1;
            crate::fixed::lemma_tdiv_bounds(aspect_ratio * (2 * SCALE as int), SCALE as int);
        }
        let viewport_width = fmul(aspect_ratio, 2 * SCALE);
        Camera {
            origin: Vec3::new(0, 0, 0),
            horizontal: Vec3::new(viewport_width, 0, 0),
            vertical: Vec3::new(0, 2 * SCALE, 0),
            lower_left: Vec3::new(-(viewport_width / 2), -SCALE, -SCALE),
        }
    }

    /// The world-space ray through viewport coordinates `(u, v)`, each
    /// normalized to `[0, 1]` across the viewport.
    pub fn get_viewport_ray(&self, u: i64, v: i64) -> (r: Ray)
        requires
            self.wf(),
            0 <= u <= 4 * SCALE,
            0 <= v <= 4 * SCALE,
        ensures
            r.origin == self.origin,
            r.origin.bounded(POINT_LIMIT as int),
            r.direction == spec_viewport_dir(*self, u as int, v as int),
            r.direction.bounded(DIR_LIMIT as int),
    {
        proof {
            lemma_fmul_bound(self.horizontal.x as int, u as int, CAM_LIMIT as int, 4 * SCALE as int);
            lemma_fmul_bound(self.horizontal.y as int, u as int, CAM_LIMIT as int, 4 * SCALE as int);
            lemma_fmul_bound(self.horizontal.z as int, u as int, CAM_LIMIT as int, 4 * SCALE as int);
            lemma_fmul_bound(self.vertical.x as int, v as int, CAM_LIMIT as int, 4 * SCALE as int);
            lemma_fmul_bound(self.vertical.y as int, v as int, CAM_LIMIT as int, 4 * SCALE as int);
            lemma_fmul_bound(self.vertical.z as int, v as int, CAM_LIMIT as int, 4 * SCALE as int);
        }
        let d = self.lower_left.add(self.horizontal.scale(u)).add(self.vertical.scale(v)).sub(
            self.origin,
        );
        if d.in_bounds(DIR_LIMIT) {
            Ray::new(self.origin, d)
        } else {
            Ray::new(self.origin, Vec3::new(0, 0, -SCALE))
        }
    }
}

} // verus!
