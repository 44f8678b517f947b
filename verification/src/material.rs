//! The material model: how light continues after striking a surface.
//!
//! A material either absorbs the ray or scatters it with a per-channel
//! attenuation in `[0, 1]`. The variants are diffuse (Lambertian),
//! fuzzed-mirror (Metal) and refractive (Dielectric, by Snell's law with
//! Schlick's approximation for the reflectance probability). Degenerate
//! fixed-point inputs that the real-number model never produces (a
//! direction too short to normalize, an out-of-range intermediate) are
//! treated as absorption rather than left unguarded.

use vstd::prelude::*;

verus! {

use crate::fixed::SCALE;
use crate::fixed::spec_fmul;
use crate::fixed::spec_fdiv;
use crate::fixed::spec_fsqrt;
use crate::fixed::spec_clamp;
use crate::fixed::sqrt_floor;
use crate::fixed::tdiv;
use crate::fixed::fmul;
use crate::fixed::fdiv;
use crate::fixed::fsqrt;
use crate::fixed::clamp;
use crate::fixed::lemma_fmul_bound;
use crate::fixed::lemma_fmul_attenuates;
use crate::fixed::lemma_tdiv_mono;
use crate::fixed::lemma_tdiv_bounds;
use crate::fixed::lemma_abs_mul_le;
use crate::fixed::lemma_sqrt_floor_bounds;
use crate::vec3::Vec3;
use crate::vec3::near_unit;
use crate::vec3::lemma_not_near_zero_ls;
use crate::fixed::lemma_tdiv_cancel;
use crate::ray::Ray;
use crate::ray::DIR_LIMIT;
use crate::hittable::HitRecord;
use crate::hittable::hit_ok;
use crate::hittable::NORM_LIMIT;
use crate::rng::rand_range;

/// Largest accepted refractive index (2^20 steps, sixteen units).
pub const INDEX_LIMIT: i64 = 1048576;

/// An RGB color with every channel in `[0, 1]`.
pub open spec fn color_in_unit(c: Vec3) -> bool {
    &&& 0 <= c.x <= SCALE as int
    &&& 0 <= c.y <= SCALE as int
    &&& 0 <= c.z <= SCALE as int
}

/// The attenuation a material applies when it scatters: its albedo, or
/// white for a refractive surface.
pub open spec fn spec_albedo(m: Material) -> Vec3 {
    match m {
        Material::Lambertian(l) => l.albedo,
        Material::Metal(mt) => mt.albedo,
        Material::Dielectric(_) => Vec3 { x: SCALE, y: SCALE, z: SCALE },
    }
}

/// Diffuse surface: scatters around the normal, tinted by `albedo`.
#[derive(Clone, Copy, Debug, PartialEq, Eq, Structural)]
pub struct Lambertian {
    pub albedo: Vec3,
}

/// Reflective surface: mirrors the ray, perturbed by `fuzz` in `[0, 1]`.
#[derive(Clone, Copy, Debug, PartialEq, Eq, Structural)]
pub struct Metal {
    pub albedo: Vec3,
    pub fuzz: i64,
}

/// Refractive surface with the given index (at least one).
#[derive(Clone, Copy, Debug, PartialEq, Eq, Structural)]
pub struct Dielectric {
    pub refractive_index: i64,
}

/// The closed set of materials a primitive can carry.
#[derive(Clone, Copy, Debug, PartialEq, Eq, Structural)]
pub enum Material {
    Lambertian(Lambertian),
    Metal(Metal),
    Dielectric(Dielectric),
}

impl Lambertian {
    pub open spec fn wf(self) -> bool {
        color_in_unit(self.albedo)
    }

    pub fn new(albedo: Vec3) -> (r: Lambertian)
        ensures
            r.albedo == albedo,
    {
        Lambertian { albedo }
    }
}

impl Metal {
    pub open spec fn wf(self) -> bool {
        &&& color_in_unit(self.albedo)
        &&& 0 <= self.fuzz <= SCALE
    }

    /// `fuzz` is clamped into `[0, 1]` at construction.
    pub fn new(albedo: Vec3, fuzz: i64) -> (r: Metal)
        ensures
            r.albedo == albedo,
            r.fuzz == spec_clamp(fuzz as int, 0, SCALE as int),
    {
        Metal { albedo, fuzz: clamp(fuzz, 0, SCALE) }
    }
}

impl Dielectric {
    pub open spec fn wf(self) -> bool {
        SCALE as int <= self.refractive_index <= INDEX_LIMIT as int
    }

    pub fn new(refractive_index: i64) -> (r: Dielectric)
        requires
            SCALE <= refractive_index <= INDEX_LIMIT,
        ensures
            r.refractive_index == refractive_index,
    {
        Dielectric { refractive_index }
    }
}

impl Material {
    pub open spec fn wf(self) -> bool {
        match self {
            Material::Lambertian(m) => m.wf(),
            Material::Metal(m) => m.wf(),
            Material::Dielectric(m) => m.wf(),
        }
    }

    /// Decide whether the ray continues past this hit. On `true`, the
    /// scattered ray starts at the hit point with an in-range direction,
    /// and the attenuation is a valid color.
    pub fn scatter(
        &self,
        ray: &Ray,
        hit_record: &HitRecord,
        attenuation: &mut Vec3,
        scattered: &mut Ray,
        rng: &mut rand::rngs::StdRng,
    ) -> (r: bool)
        requires
            self.wf(),
            hit_ok(*hit_record),
            ray.direction.bounded(DIR_LIMIT as int),
        ensures
            r ==> final(scattered).origin == hit_record.point,
            r ==> final(scattered).direction.bounded(DIR_LIMIT as int),
            r ==> color_in_unit(*final(attenuation)),
            r ==> *final(attenuation) == spec_albedo(*self),
    {
        match self {
            Material::Lambertian(m) => m.scatter(ray, hit_record, attenuation, scattered, rng),
            Material::Metal(m) => m.scatter(ray, hit_record, attenuation, scattered, rng),
            Material::Dielectric(m) => m.scatter(ray, hit_record, attenuation, scattered, rng),
        }
    }
}

impl Lambertian {
    /// Always scatters: direction is the normal plus a random unit
    /// vector, or the bare normal if that sum is degenerate.
    pub fn scatter(
        &self,
        _ray: &Ray,
        hit_record: &HitRecord,
        attenuation: &mut Vec3,
        scattered: &mut Ray,
        rng: &mut rand::rngs::StdRng,
    ) -> (r: bool)
        requires
            self.wf(),
            hit_ok(*hit_record),
        ensures
            r == true,
            final(scattered).origin == hit_record.point,
            final(scattered).direction.bounded(DIR_LIMIT as int),
            final(scattered).direction.spec_length_squared() >= 1,
            *final(attenuation) == self.albedo,
            (exists|u: Vec3|
                near_unit(u) && final(scattered).direction == #[trigger] hit_record.normal.spec_add(
                    u,
                )) || final(scattered).direction == hit_record.normal,
    {
        let u = Vec3::random_unit_vector(rng);
        let mut scatter_direction = hit_record.normal.add(u);
        if scatter_direction.is_near_zero() {
            scatter_direction = hit_record.normal;
        } else {
            proof {
                lemma_not_near_zero_ls(scatter_direction);
                assert(scatter_direction == hit_record.normal.spec_add(u));
            }
        }
        *scattered = Ray::new(hit_record.point, scatter_direction);
        *attenuation = self.albedo;
        true
    }
}

impl Metal {
    /// Mirror the incoming direction about the normal and perturb it by
    /// `fuzz`. The ray is absorbed when the incoming direction is too
    /// short to normalize, when the perturbed direction points into the
    /// surface, or when a fixed-point intermediate leaves its range.
    pub fn scatter(
        &self,
        ray: &Ray,
        hit_record: &HitRecord,
        attenuation: &mut Vec3,
        scattered: &mut Ray,
        rng: &mut rand::rngs::StdRng,
    ) -> (r: bool)
        requires
            self.wf(),
            hit_ok(*hit_record),
            ray.direction.bounded(DIR_LIMIT as int),
        ensures
            r ==> final(scattered).origin == hit_record.point,
            r ==> final(scattered).direction.bounded(DIR_LIMIT as int),
            r ==> final(scattered).direction.spec_dot(hit_record.normal) > 0,
            r ==> *final(attenuation) == self.albedo,
            ray.direction.spec_length_squared() < 1 ==> !r,
            r ==> exists|u: Vec3|
                near_unit(u) && final(scattered).direction
                    == #[trigger] ray.direction.spec_normalized().spec_reflect(
                    hit_record.normal,
                ).spec_add(u.spec_scale(self.fuzz as int)),
            metal_scatter_ok(*ray, *hit_record, self.fuzz as int) ==> r,
    {
        let ls = ray.direction.length_squared();
        if ls < 1 {
            return false;
        }
        let unit = ray.direction.normalized();
        if !unit.in_bounds(2 * SCALE) {
            return false;
        }
        let reflected = unit.reflect(&hit_record.normal);
        if !reflected.in_bounds(DIR_LIMIT) {
            return false;
        }
        let u = Vec3::random_unit_vector(rng);
        proof {
            lemma_fmul_bound(u.x as int, self.fuzz as int, 2 * SCALE as int, SCALE as int);
            lemma_fmul_bound(u.y as int, self.fuzz as int, 2 * SCALE as int, SCALE as int);
            lemma_fmul_bound(u.z as int, self.fuzz as int, 2 * SCALE as int, SCALE as int);
        }
        let fuzzed = reflected.add(u.scale(self.fuzz));
        proof {
            if metal_scatter_ok(*ray, *hit_record, self.fuzz as int) {
                lemma_metal_margin(reflected, u, hit_record.normal, self.fuzz as int);
            }
        }
        if !fuzzed.in_bounds(DIR_LIMIT) {
            return false;
        }
        if Vec3::dot(&fuzzed, &hit_record.normal) <= 0 {
            return false;
        }
        *scattered = Ray::new(hit_record.point, fuzzed);
        *attenuation = self.albedo;
        true
    }
}

/// The inputs on which a metal owes a scattered ray whatever the random
/// perturbation: the incoming direction can be normalized, its mirror
/// image leaves room in the direction budget for the fuzz, and the
/// mirror leaves the surface with margin enough that no perturbation of
/// magnitude `fuzz` can turn it back in.
pub open spec fn metal_scatter_ok(ray: Ray, hit: HitRecord, fuzz: int) -> bool {
    let unit = ray.direction.spec_normalized();
    let reflected = unit.spec_reflect(hit.normal);
    &&& ray.direction.spec_length_squared() >= 1
    &&& unit.bounded(2 * SCALE as int)
    &&& reflected.bounded(DIR_LIMIT as int - 2 * fuzz)
    &&& reflected.spec_dot(hit.normal) > 12 * fuzz + 6
}

/// A perturbation of at most `fuzz` per axis neither pushes a mirror
/// direction with margin out of the direction budget nor turns it back
/// into the surface.
proof fn lemma_metal_margin(reflected: Vec3, u: Vec3, n: Vec3, fuzz: int)
    requires
        0 <= fuzz <= SCALE as int,
        near_unit(u),
        n.bounded(NORM_LIMIT as int),
        reflected.bounded(DIR_LIMIT as int - 2 * fuzz),
        reflected.spec_dot(n) > 12 * fuzz + 6,
    ensures
        u.spec_scale(fuzz).bounded(2 * fuzz),
        reflected.spec_add(u.spec_scale(fuzz)).bounded(DIR_LIMIT as int),
        reflected.spec_add(u.spec_scale(fuzz)).spec_dot(n) > 0,
{
    let s = SCALE as int;
    assert(tdiv((2 * s) * fuzz, s) == 2 * fuzz) by {
        lemma_tdiv_cancel(2 * fuzz, s);
        assert((2 * s) * fuzz == (2 * fuzz) * s) by (nonlinear_arith);
    }
    lemma_fmul_bound(u.x as int, fuzz, 2 * s, fuzz);
    lemma_fmul_bound(u.y as int, fuzz, 2 * s, fuzz);
    lemma_fmul_bound(u.z as int, fuzz, 2 * s, fuzz);
    let uf = u.spec_scale(fuzz);
    let fuzzed = reflected.spec_add(uf);
    assert(tdiv((2 * fuzz) * (NORM_LIMIT as int), s) == 4 * fuzz) by {
        lemma_tdiv_cancel(4 * fuzz, s);
        assert((2 * fuzz) * (NORM_LIMIT as int) == (4 * fuzz) * s) by (nonlinear_arith)
            requires NORM_LIMIT as int == 2 * s;
    }
    lemma_fmul_bound(uf.x as int, n.x as int, 2 * fuzz, NORM_LIMIT as int);
    lemma_fmul_bound(uf.y as int, n.y as int, 2 * fuzz, NORM_LIMIT as int);
    lemma_fmul_bound(uf.z as int, n.z as int, 2 * fuzz, NORM_LIMIT as int);
    lemma_fuzzed_dot_step(reflected.x as int, uf.x as int, n.x as int);
    lemma_fuzzed_dot_step(reflected.y as int, uf.y as int, n.y as int);
    lemma_fuzzed_dot_step(reflected.z as int, uf.z as int, n.z as int);
}

/// One component of the perturbed mirror's dot product loses at most
/// two steps against the unperturbed terms.
proof fn lemma_fuzzed_dot_step(rc: int, uc: int, nc: int)
    requires
        i64::MIN <= rc + uc <= i64::MAX,
    ensures
        spec_fmul(((rc + uc) as i64) as int, nc) >= spec_fmul(rc, nc) + spec_fmul(uc, nc) - 2,
{
    assert((rc + uc) * nc == rc * nc + uc * nc) by (nonlinear_arith);
    crate::fixed::lemma_tdiv_superadd(rc * nc, uc * nc, SCALE as int);
}

/// The refraction of `unit` at a surface with normal `n` and index ratio
/// `ratio` (Snell's law in vector form): the component of the refracted
/// direction perpendicular to `n` is `ratio * (unit + cos * n)` with
/// `cos = min(<-unit, n>, 1)`, and the parallel component restores unit
/// length. A negative radicand (a fixed-point artifact) is clamped to 0.
pub open spec fn spec_refract(unit: Vec3, n: Vec3, ratio: int) -> Vec3 {
    let cos = if unit.spec_neg().spec_dot(n) > SCALE as int {
        SCALE as int
    } else {
        unit.spec_neg().spec_dot(n)
    };
    let perp = unit.spec_add(n.spec_scale(cos)).spec_scale(ratio);
    let k = if SCALE as int - perp.spec_length_squared() < 0 {
        0
    } else {
        SCALE as int - perp.spec_length_squared()
    };
    perp.spec_add(n.spec_scale(-spec_fsqrt(k)))
}

/// The inputs on which a dielectric owes a scattered ray: the incoming
/// direction can be normalized and both candidate outgoing directions
/// (mirror and refraction) stay in range — whichever the reflectance
/// draw picks then goes through.
pub open spec fn dielectric_ok(ray: Ray, hit: HitRecord, ratio: int) -> bool {
    let unit = ray.direction.spec_normalized();
    &&& ray.direction.spec_length_squared() >= 1
    &&& unit.bounded(2 * SCALE as int)
    &&& unit.spec_reflect(hit.normal).bounded(DIR_LIMIT as int)
    &&& spec_refract(unit, hit.normal, ratio).bounded(DIR_LIMIT as int)
}

/// Total internal reflection: the index ratio times the sine of the
/// incidence angle exceeds one, so Snell's law has no refracted ray.
pub open spec fn spec_cannot_refract(unit: Vec3, n: Vec3, ratio: int) -> bool {
    let cos = if unit.spec_neg().spec_dot(n) > SCALE as int {
        SCALE as int
    } else {
        unit.spec_neg().spec_dot(n)
    };
    let sin = spec_fsqrt(spec_clamp(SCALE as int - spec_fmul(cos, cos), 0, SCALE as int));
    spec_fmul(ratio, sin) > SCALE as int
}

/// The index ratio a dielectric applies: inverted when entering.
pub open spec fn spec_ratio(d: Dielectric, front_face: bool) -> int {
    if front_face {
        spec_fdiv(SCALE as int, d.refractive_index as int)
    } else {
        d.refractive_index as int
    }
}

impl Dielectric {
    /// Refract or reflect by Snell's law: reflect on total internal
    /// reflection, otherwise choose by Schlick's reflectance against a
    /// uniform draw. Attenuation is white. The ray is absorbed only when
    /// the incoming direction is too short to normalize or a fixed-point
    /// intermediate leaves its range.
    pub fn scatter(
        &self,
        ray: &Ray,
        hit_record: &HitRecord,
        attenuation: &mut Vec3,
        scattered: &mut Ray,
        rng: &mut rand::rngs::StdRng,
    ) -> (r: bool)
        requires
            self.wf(),
            hit_ok(*hit_record),
            ray.direction.bounded(DIR_LIMIT as int),
        ensures
            r ==> final(scattered).origin == hit_record.point,
            r ==> final(scattered).direction.bounded(DIR_LIMIT as int),
            r ==> *final(attenuation) == (Vec3 { x: SCALE, y: SCALE, z: SCALE }),
            ray.direction.spec_length_squared() < 1 ==> !r,
            r ==> final(scattered).direction == ray.direction.spec_normalized().spec_reflect(
                hit_record.normal,
            ) || final(scattered).direction == spec_refract(
                ray.direction.spec_normalized(),
                hit_record.normal,
                spec_ratio(*self, hit_record.front_face),
            ),
            dielectric_ok(*ray, *hit_record, spec_ratio(*self, hit_record.front_face)) ==> r,
            (r && spec_cannot_refract(
                ray.direction.spec_normalized(),
                hit_record.normal,
                spec_ratio(*self, hit_record.front_face),
            )) ==> final(scattered).direction == ray.direction.spec_normalized().spec_reflect(
                hit_record.normal,
            ),
    {
        *attenuation = Vec3::new(SCALE, SCALE, SCALE);
        let ls = ray.direction.length_squared();
        if ls < 1 {
            return false;
        }
        let unit = ray.direction.normalized();
        if !unit.in_bounds(2 * SCALE) {
            return false;
        }
        let index_ratio = if hit_record.front_face {
            fdiv(SCALE, self.refractive_index)
        } else {
            self.refractive_index
        };
        proof {
            lemma_ratio_in_range(*self, hit_record.front_face);
        }

        proof {
            let neg = unit.spec_neg();
            lemma_fmul_bound(neg.x as int, hit_record.normal.x as int, 2 * SCALE as int, NORM_LIMIT as int);
            lemma_fmul_bound(neg.y as int, hit_record.normal.y as int, 2 * SCALE as int, NORM_LIMIT as int);
            lemma_fmul_bound(neg.z as int, hit_record.normal.z as int, 2 * SCALE as int, NORM_LIMIT as int);
        }
        let c0 = Vec3::dot(&unit.neg(), &hit_record.normal);
        let cos_theta = if c0 > SCALE {
            SCALE
        } else {
            c0
        };

        // Total internal reflection test: ratio * sin > 1.
        proof {
            lemma_fmul_bound(cos_theta as int, cos_theta as int, 0xC0000, 0xC0000);
        }
        let cos_sq = fmul(cos_theta, cos_theta);
        let sin_theta = fsqrt(clamp(SCALE - cos_sq, 0, SCALE));
        proof {
            lemma_fsqrt_small(spec_clamp(SCALE as int - cos_sq as int, 0, SCALE as int));
            lemma_fmul_bound(index_ratio as int, sin_theta as int, INDEX_LIMIT as int, SCALE as int);
        }
        let cannot_refract = fmul(index_ratio, sin_theta) > SCALE;
        proof {
            assert(cannot_refract == spec_cannot_refract(
                unit,
                hit_record.normal,
                index_ratio as int,
            ));
        }

        let random_draw = rand_range(rng, 0, SCALE);
        let direction = if cannot_refract || self.reflectance(cos_theta, index_ratio) > random_draw {
            let reflected = unit.reflect(&hit_record.normal);
            reflected
        } else {
            refract_dir(&unit, &hit_record.normal, index_ratio, cos_theta)
        };
        if !direction.in_bounds(DIR_LIMIT) {
            return false;
        }
        *scattered = Ray::new(hit_record.point, direction);
        true
    }

    /// Schlick's approximation of the reflectance at incidence cosine
    /// `cos` (clamped into `[0, 1]`) for the given index ratio.
    fn reflectance(&self, cos: i64, index_ratio: i64) -> (r: i64)
        requires
            1 <= index_ratio <= INDEX_LIMIT,
            -0xC0000 <= cos <= SCALE,
        ensures
            0 <= r <= SCALE,
    {
        proof {
            lemma_fdiv_ratio_in_unit(
                SCALE as int - index_ratio as int,
                SCALE as int + index_ratio as int,
            );
        }
        let r0 = fdiv(SCALE - index_ratio, SCALE + index_ratio);
        proof {
            lemma_fmul_bound(r0 as int, r0 as int, SCALE as int, SCALE as int);
            lemma_fmul_square_in_unit(r0 as int);
        }
        let r0sq = fmul(r0, r0);
        let omc = SCALE - clamp(cos, 0, SCALE);
        proof {
            lemma_fmul_attenuates(omc as int, omc as int);
        }
        let pow2 = fmul(omc, omc);
        proof {
            lemma_fmul_attenuates(pow2 as int, pow2 as int);
        }
        let pow4 = fmul(pow2, pow2);
        proof {
            lemma_fmul_attenuates(omc as int, pow4 as int);
        }
        let pow5 = fmul(omc, pow4);
        proof {
            lemma_fmul_attenuates(pow5 as int, SCALE as int - r0sq as int);
        }
        r0sq + fmul(SCALE - r0sq, pow5)
    }
}

/// The executable mirror of `spec_refract`.
fn refract_dir(unit: &Vec3, n: &Vec3, index_ratio: i64, cos_theta: i64) -> (r: Vec3)
    requires
        unit.bounded(2 * SCALE as int),
        n.bounded(NORM_LIMIT as int),
        1 <= index_ratio <= INDEX_LIMIT,
        -0xC0000 <= cos_theta <= SCALE,
        cos_theta as int == if unit.spec_neg().spec_dot(*n) > SCALE as int {
            SCALE as int
        } else {
            unit.spec_neg().spec_dot(*n)
        },
    ensures
        r == spec_refract(*unit, *n, index_ratio as int),
{
    proof {
        lemma_fmul_bound(n.x as int, cos_theta as int, NORM_LIMIT as int, 0xC0000);
        lemma_fmul_bound(n.y as int, cos_theta as int, NORM_LIMIT as int, 0xC0000);
        lemma_fmul_bound(n.z as int, cos_theta as int, NORM_LIMIT as int, 0xC0000);
        let w = unit.spec_add(n.spec_scale(cos_theta as int));
        lemma_fmul_bound(w.x as int, index_ratio as int, 0x1A0000, INDEX_LIMIT as int);
        lemma_fmul_bound(w.y as int, index_ratio as int, 0x1A0000, INDEX_LIMIT as int);
        lemma_fmul_bound(w.z as int, index_ratio as int, 0x1A0000, INDEX_LIMIT as int);
    }
    let perp = unit.add(n.scale(cos_theta)).scale(index_ratio);
    let k = clamp_low(SCALE - perp.length_squared());
    let s = fsqrt(k);
    proof {
        lemma_fsqrt_small(k as int);
        lemma_fmul_bound(n.x as int, -(s as int), NORM_LIMIT as int, SCALE as int);
        lemma_fmul_bound(n.y as int, -(s as int), NORM_LIMIT as int, SCALE as int);
        lemma_fmul_bound(n.z as int, -(s as int), NORM_LIMIT as int, SCALE as int);
    }
    perp.add(n.scale(-s))
}

/// Clamp below at zero.
fn clamp_low(x: i64) -> (r: i64)
    ensures
        r as int == if x < 0 {
            0int
        } else {
            x as int
        },
{
    if x < 0 {
        0
    } else {
        x
    }
}

proof fn lemma_ratio_in_range(d: Dielectric, front_face: bool)
    requires
        d.wf(),
    ensures
        1 <= spec_ratio(d, front_face) <= INDEX_LIMIT as int,
        i64::MIN <= spec_fdiv(SCALE as int, d.refractive_index as int) <= i64::MAX,
{
    let idx = d.refractive_index as int;
    let s = SCALE as int;
    lemma_tdiv_bounds(s * s, idx);
    // 1/index in fixed point is s * s / idx, with s <= idx <= INDEX_LIMIT:
    // at least one because s * s >= idx, at most s by denominator ordering.
    assert(s * s >= idx) by (nonlinear_arith)
        requires s <= idx <= 1048576 && s == 65536;
    lemma_tdiv_mono(idx, s * s, idx);
    vstd::arithmetic::div_mod::lemma_div_by_self(idx);
    vstd::arithmetic::div_mod::lemma_div_is_ordered_by_denominator(s * s, s, idx);
    vstd::arithmetic::div_mod::lemma_div_multiples_vanish(s, s);
    assert(s * s >= 0) by (nonlinear_arith);
}

/// The square of a value of magnitude at most one is in `[0, 1]`.
proof fn lemma_fmul_square_in_unit(c: int)
    requires
        -(SCALE as int) <= c,
    ensures
        spec_fmul(c, c) >= 0,
        c <= SCALE as int ==> spec_fmul(c, c) <= SCALE as int,
{
    assert(c * c >= 0) by (nonlinear_arith);
    lemma_tdiv_bounds(c * c, SCALE as int);
    if c <= SCALE as int {
        assert(c * c <= (SCALE as int) * (SCALE as int)) by (nonlinear_arith)
            requires -65536 <= c <= 65536;
        lemma_tdiv_mono(c * c, (SCALE as int) * (SCALE as int), SCALE as int);
        vstd::arithmetic::div_mod::lemma_div_multiples_vanish(SCALE as int, SCALE as int);
    }
}

/// For `0 <= k <= 1`, the fixed-point square root is at most one.
proof fn lemma_fsqrt_small(k: int)
    requires
        0 <= k <= SCALE as int,
    ensures
        0 <= spec_fsqrt(k) <= SCALE as int,
{
    let prod = (k * (SCALE as int)) as nat;
    assert(k * (SCALE as int) <= (SCALE as int) * (SCALE as int)) by (nonlinear_arith)
        requires 0 <= k <= SCALE as int;
    assert(k * (SCALE as int) >= 0) by (nonlinear_arith)
        requires k >= 0;
    lemma_sqrt_floor_bounds(prod);
    let s = sqrt_floor(prod);
    if s > SCALE as int {
        assert(s * s > (SCALE as int) * (SCALE as int)) by (nonlinear_arith)
            requires s > 65536;
    }
}

/// A quotient of magnitudes `|a| <= b` lies in `[-1, 1]` in fixed point.
proof fn lemma_fdiv_ratio_in_unit(a: int, b: int)
    requires
        b >= 1,
        -b <= a <= b,
    ensures
        -(SCALE as int) <= spec_fdiv(a, b) <= SCALE as int,
{
    let s = SCALE as int;
    lemma_abs_mul_le(a, s, b, s);
    lemma_tdiv_mono(a * s, b * s, b);
    lemma_tdiv_mono(-(b * s), a * s, b);
    vstd::arithmetic::div_mod::lemma_div_multiples_vanish(s, b);
    assert(b * s == s * b) by (nonlinear_arith);
    assert(tdiv(b * s, b) == s);
    assert(tdiv(-(b * s), b) == -s);
}

} // verus!
