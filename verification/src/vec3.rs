//! Three-component fixed-point vectors.
//!
//! A `Vec3` stands for a point, a direction, or an RGB color; every
//! component is a fixed-point real (see `fixed`). Each operation carries
//! an exact contract over the matching spec function, and the random
//! sampling helpers draw through the seeded generator of `rng`.

use vstd::prelude::*;

verus! {

use crate::fixed::SCALE;
use crate::fixed::HALF;
use crate::fixed::spec_fmul;
use crate::fixed::spec_fdiv;
use crate::fixed::spec_fsqrt;
use crate::fixed::tdiv;
use crate::fixed::sqrt_floor;
use crate::fixed::fmul;
use crate::fixed::fdiv;
use crate::fixed::fsqrt;
use crate::fixed::lemma_fmul_bound;
use crate::fixed::lemma_tdiv_bounds;
use crate::fixed::lemma_tdiv_mono;
use crate::fixed::lemma_abs_mul_le;
use crate::fixed::lemma_sqrt_floor_bounds;
use crate::fixed::lemma_tdiv_cancel;
use crate::rng::rand_range;

/// Magnitude cap on the components fed to a dot product or a length:
/// 2^36 fixed-point steps, one megaunit of world space. Everything the
/// renderer builds stays far below it.
pub const VEC_LIMIT: i64 = 68719476736;

/// A vector with all components at most this magnitude (2^20 steps,
/// sixteen units) is safe for `reflect`.
pub const REFLECT_LIMIT: i64 = 1048576;

/// Below this per-component magnitude (2^-8 of a unit) a vector may have
/// a computed squared length of zero, so it counts as degenerate.
pub const NEAR_EPS: i64 = 256;

/// How far the computed squared length of a "unit" vector may stray
/// from one: 128 fixed-point steps, about 0.2%.
pub const UNIT_TOL: i64 = 128;

#[derive(Clone, Copy, Debug, PartialEq, Eq, Structural)]
pub struct Vec3 {
    pub x: i64,
    pub y: i64,
    pub z: i64,
}

/// A computed direction of approximately unit length: components within
/// two units, and squared length within `UNIT_TOL` of one.
pub open spec fn near_unit(v: Vec3) -> bool {
    &&& v.bounded(2 * SCALE as int)
    &&& SCALE as int - UNIT_TOL as int <= v.spec_length_squared() <= SCALE as int + UNIT_TOL as int
}

impl Vec3 {
    /// All components within `[-b, b]`.
    pub open spec fn bounded(self, b: int) -> bool {
        &&& -b <= self.x <= b
        &&& -b <= self.y <= b
        &&& -b <= self.z <= b
    }

    pub open spec fn spec_add(self, o: Vec3) -> Vec3 {
        Vec3 { x: (self.x + o.x) as i64, y: (self.y + o.y) as i64, z: (self.z + o.z) as i64 }
    }

    pub open spec fn spec_sub(self, o: Vec3) -> Vec3 {
        Vec3 { x: (self.x - o.x) as i64, y: (self.y - o.y) as i64, z: (self.z - o.z) as i64 }
    }

    pub open spec fn spec_mul(self, o: Vec3) -> Vec3 {
        Vec3 {
            x: spec_fmul(self.x as int, o.x as int) as i64,
            y: spec_fmul(self.y as int, o.y as int) as i64,
            z: spec_fmul(self.z as int, o.z as int) as i64,
        }
    }

    pub open spec fn spec_scale(self, t: int) -> Vec3 {
        Vec3 {
            x: spec_fmul(self.x as int, t) as i64,
            y: spec_fmul(self.y as int, t) as i64,
            z: spec_fmul(self.z as int, t) as i64,
        }
    }

    pub open spec fn spec_div_by(self, t: int) -> Vec3 {
        Vec3 {
            x: spec_fdiv(self.x as int, t) as i64,
            y: spec_fdiv(self.y as int, t) as i64,
            z: spec_fdiv(self.z as int, t) as i64,
        }
    }

    pub open spec fn spec_neg(self) -> Vec3 {
        Vec3 { x: (-self.x) as i64, y: (-self.y) as i64, z: (-self.z) as i64 }
    }

    pub open spec fn spec_dot(self, o: Vec3) -> int {
        spec_fmul(self.x as int, o.x as int) + spec_fmul(self.y as int, o.y as int)
            + spec_fmul(self.z as int, o.z as int)
    }

    pub open spec fn spec_length_squared(self) -> int {
        self.spec_dot(self)
    }

    pub open spec fn spec_length(self) -> int {
        spec_fsqrt(self.spec_length_squared())
    }

    pub open spec fn spec_normalized(self) -> Vec3 {
        self.spec_div_by(self.spec_length())
    }

    pub open spec fn spec_cross(self, o: Vec3) -> Vec3 {
        Vec3 {
            x: (spec_fmul(self.z as int, o.y as int) - spec_fmul(self.y as int, o.z as int)) as i64,
            y: (spec_fmul(self.x as int, o.z as int) - spec_fmul(self.z as int, o.x as int)) as i64,
            z: (spec_fmul(self.y as int, o.x as int) - spec_fmul(self.x as int, o.y as int)) as i64,
        }
    }

    pub open spec fn spec_near_zero(self) -> bool {
        &&& -NEAR_EPS < self.x < NEAR_EPS
        &&& -NEAR_EPS < self.y < NEAR_EPS
        &&& -NEAR_EPS < self.z < NEAR_EPS
    }

    pub open spec fn spec_reflect(self, n: Vec3) -> Vec3 {
        Vec3 {
            x: (self.x - spec_fmul(2 * self.spec_dot(n), n.x as int)) as i64,
            y: (self.y - spec_fmul(2 * self.spec_dot(n), n.y as int)) as i64,
            z: (self.z - spec_fmul(2 * self.spec_dot(n), n.z as int)) as i64,
        }
    }

    /// Uniform random vector with each component in `[0, 1)`.
    pub fn random(rng: &mut rand::rngs::StdRng) -> (r: Vec3)
        ensures
            0 <= r.x < SCALE,
            0 <= r.y < SCALE,
            0 <= r.z < SCALE,
    {
        let x = rand_range(rng, 0, SCALE);
        let y = rand_range(rng, 0, SCALE);
        let z = rand_range(rng, 0, SCALE);
        Vec3 { x, y, z }
    }

    /// Uniform random vector with each component in `[min, max)`.
    pub fn random_in_range(rng: &mut rand::rngs::StdRng, min: i64, max: i64) -> (r: Vec3)
        requires
            min < max,
        ensures
            min <= r.x < max,
            min <= r.y < max,
            min <= r.z < max,
    {
        let x = rand_range(rng, min, max);
        let y = rand_range(rng, min, max);
        let z = rand_range(rng, min, max);
        Vec3 { x, y, z }
    }

    /// Rejection-sample a point strictly inside the unit ball. The draw
    /// is bounded to a fixed number of attempts so that the function
    /// provably returns; if every attempt lands outside the ball (never
    /// observed in practice), a fixed interior point stands in.
    pub fn random_in_unit_sphere(rng: &mut rand::rngs::StdRng) -> (r: Vec3)
        ensures
            r.bounded(SCALE as int),
            0 <= r.spec_length_squared() < SCALE,
    {
        let mut attempts: u32 = 64;
        while attempts > 0
            invariant true,
            decreases attempts,
        {
            let point = Vec3::random_in_range(rng, -SCALE, SCALE);
            let ls = point.length_squared();
            if ls < SCALE {
                return point;
            }
            attempts = attempts - 1;
        }
        Vec3 { x: HALF, y: 0, z: 0 }
    }

    /// A random direction of (computed) unit length: a unit-ball sample,
    /// normalized. Samples too short to normalize or with an outsized
    /// rounding error are redrawn; if every attempt fails (never observed
    /// in practice), the positive z axis stands in.
    pub fn random_unit_vector(rng: &mut rand::rngs::StdRng) -> (r: Vec3)
        ensures
            near_unit(r),
    {
        let mut attempts: u32 = 64;
        while attempts > 0
            invariant true,
            decreases attempts,
        {
            let point = Vec3::random_in_range(rng, -SCALE, SCALE);
            let ls = point.length_squared();
            if SCALE / 4 <= ls && ls < SCALE {
                let unit = point.normalized();
                if unit.in_bounds(2 * SCALE) {
                    let unit_ls = unit.length_squared();
                    if SCALE - UNIT_TOL <= unit_ls && unit_ls <= SCALE + UNIT_TOL {
                        return unit;
                    }
                }
            }
            attempts = attempts - 1;
        }
        proof {
            lemma_tdiv_cancel(SCALE as int, SCALE as int);
            assert((SCALE as int) * (SCALE as int) == (SCALE as int) * (SCALE as int));
        }
        Vec3 { x: 0, y: 0, z: SCALE }
    }

    /// A unit-ball sample on the same side of the surface as `normal`.
    pub fn random_in_hemisphere(rng: &mut rand::rngs::StdRng, normal: &Vec3) -> (r: Vec3)
        requires
            normal.bounded(VEC_LIMIT as int),
        ensures
            r.bounded(SCALE as int),
            0 <= r.spec_length_squared() < SCALE,
            r.spec_dot(*normal) >= 0,
    {
        let in_unit_sphere = Vec3::random_in_unit_sphere(rng);
        if Vec3::dot(&in_unit_sphere, normal) > 0 {
            in_unit_sphere
        } else {
            proof {
                lemma_neg_flips(in_unit_sphere, *normal);
            }
            in_unit_sphere.neg()
        }
    }

    /// Runtime check of the `bounded` predicate.
    pub fn in_bounds(&self, b: i64) -> (r: bool)
        requires
            b >= 0,
        ensures
            r == self.bounded(b as int),
    {
        self.x <= b && self.x >= -b && self.y <= b && self.y >= -b && self.z <= b && self.z >= -b
    }

    pub fn new(x: i64, y: i64, z: i64) -> (r: Vec3)
        ensures
            r == (Vec3 { x, y, z }),
    {
        Vec3 { x, y, z }
    }

    pub fn add(self, o: Vec3) -> (r: Vec3)
        requires
            i64::MIN <= self.x + o.x <= i64::MAX,
            i64::MIN <= self.y + o.y <= i64::MAX,
            i64::MIN <= self.z + o.z <= i64::MAX,
        ensures
            r == self.spec_add(o),
    {
        Vec3 { x: self.x + o.x, y: self.y + o.y, z: self.z + o.z }
    }

    pub fn sub(self, o: Vec3) -> (r: Vec3)
        requires
            i64::MIN <= self.x - o.x <= i64::MAX,
            i64::MIN <= self.y - o.y <= i64::MAX,
            i64::MIN <= self.z - o.z <= i64::MAX,
        ensures
            r == self.spec_sub(o),
    {
        Vec3 { x: self.x - o.x, y: self.y - o.y, z: self.z - o.z }
    }

    /// Component-wise (Hadamard) product, the color-attenuation operation.
    pub fn mul(self, o: Vec3) -> (r: Vec3)
        requires
            i64::MIN <= spec_fmul(self.x as int, o.x as int) <= i64::MAX,
            i64::MIN <= spec_fmul(self.y as int, o.y as int) <= i64::MAX,
            i64::MIN <= spec_fmul(self.z as int, o.z as int) <= i64::MAX,
        ensures
            r == self.spec_mul(o),
    {
        Vec3 { x: fmul(self.x, o.x), y: fmul(self.y, o.y), z: fmul(self.z, o.z) }
    }

    /// Scalar multiple.
    pub fn scale(self, t: i64) -> (r: Vec3)
        requires
            i64::MIN <= spec_fmul(self.x as int, t as int) <= i64::MAX,
            i64::MIN <= spec_fmul(self.y as int, t as int) <= i64::MAX,
            i64::MIN <= spec_fmul(self.z as int, t as int) <= i64::MAX,
        ensures
            r == self.spec_scale(t as int),
    {
        Vec3 { x: fmul(self.x, t), y: fmul(self.y, t), z: fmul(self.z, t) }
    }

    /// Scalar division.
    pub fn div_by(self, t: i64) -> (r: Vec3)
        requires
            t != 0,
            i64::MIN <= spec_fdiv(self.x as int, t as int) <= i64::MAX,
            i64::MIN <= spec_fdiv(self.y as int, t as int) <= i64::MAX,
            i64::MIN <= spec_fdiv(self.z as int, t as int) <= i64::MAX,
        ensures
            r == self.spec_div_by(t as int),
    {
        Vec3 { x: fdiv(self.x, t), y: fdiv(self.y, t), z: fdiv(self.z, t) }
    }

    pub fn neg(self) -> (r: Vec3)
        requires
            self.x != i64::MIN,
            self.y != i64::MIN,
            self.z != i64::MIN,
        ensures
            r == self.spec_neg(),
    {
        Vec3 { x: -self.x, y: -self.y, z: -self.z }
    }

    pub fn dot(v: &Vec3, u: &Vec3) -> (r: i64)
        requires
            v.bounded(VEC_LIMIT as int),
            u.bounded(VEC_LIMIT as int),
        ensures
            r as int == v.spec_dot(*u),
    {
        proof {
            lemma_dot_fits(*v, *u);
        }
        let a = fmul(v.x, u.x);
        let b = fmul(v.y, u.y);
        let c = fmul(v.z, u.z);
        a + b + c
    }

    pub fn cross(v: &Vec3, u: &Vec3) -> (r: Vec3)
        requires
            v.bounded(VEC_LIMIT as int),
            u.bounded(VEC_LIMIT as int),
        ensures
            r == v.spec_cross(*u),
    {
        proof {
            lemma_dot_fits(*v, *u);
            lemma_dot_fits(*u, *v);
        }
        Vec3 {
            x: fmul(v.z, u.y) - fmul(v.y, u.z),
            y: fmul(v.x, u.z) - fmul(v.z, u.x),
            z: fmul(v.y, u.x) - fmul(v.x, u.y),
        }
    }

    pub fn length_squared(&self) -> (r: i64)
        requires
            self.bounded(VEC_LIMIT as int),
        ensures
            r as int == self.spec_length_squared(),
            r >= 0,
    {
        proof {
            lemma_length_squared_nonneg(*self);
        }
        Vec3::dot(self, self)
    }

    pub fn length(&self) -> (r: i64)
        requires
            self.bounded(VEC_LIMIT as int),
        ensures
            r as int == self.spec_length(),
            r >= 0,
    {
        let ls = self.length_squared();
        fsqrt(ls)
    }

    /// Direction of `self` at unit length. The caller must rule out a
    /// degenerate (computed-zero-length) vector; zero-length input is a
    /// precondition violation, not a handled case.
    pub fn normalized(&self) -> (r: Vec3)
        requires
            self.bounded(VEC_LIMIT as int),
            self.spec_length_squared() >= 1,
        ensures
            r == self.spec_normalized(),
    {
        let len = self.length();
        proof {
            lemma_length_positive(*self);
            lemma_div_by_length_fits(*self, len as int);
        }
        self.div_by(len)
    }

    pub fn is_near_zero(&self) -> (r: bool)
        ensures
            r == self.spec_near_zero(),
    {
        (self.x < NEAR_EPS && self.x > -NEAR_EPS) && (self.y < NEAR_EPS && self.y > -NEAR_EPS)
            && (self.z < NEAR_EPS && self.z > -NEAR_EPS)
    }

    /// Mirror `self` about the plane with normal `n`.
    pub fn reflect(&self, n: &Vec3) -> (r: Vec3)
        requires
            self.bounded(REFLECT_LIMIT as int),
            n.bounded(REFLECT_LIMIT as int),
        ensures
            r == self.spec_reflect(*n),
    {
        proof {
            lemma_reflect_fits(*self, *n);
        }
        let d = Vec3::dot(self, n);
        let twod = 2 * d;
        Vec3 { x: self.x - fmul(twod, n.x), y: self.y - fmul(twod, n.y), z: self.z - fmul(twod, n.z) }
    }
}

impl Default for Vec3 {
    /// The zero vector.
    fn default() -> (r: Vec3)
        ensures
            r == (Vec3 { x: 0, y: 0, z: 0 }),
    {
        Vec3 { x: 0, y: 0, z: 0 }
    }
}

/// Negating a vector negates its dot products and keeps its squared
/// length.
pub proof fn lemma_neg_flips(v: Vec3, n: Vec3)
    requires
        v.x != i64::MIN,
        v.y != i64::MIN,
        v.z != i64::MIN,
    ensures
        v.spec_neg().spec_dot(n) == -v.spec_dot(n),
        v.spec_neg().spec_length_squared() == v.spec_length_squared(),
{
    lemma_fmul_neg_left(v.x as int, n.x as int);
    lemma_fmul_neg_left(v.y as int, n.y as int);
    lemma_fmul_neg_left(v.z as int, n.z as int);
    assert((-v.x) * (-v.x) == v.x * v.x) by (nonlinear_arith);
    assert((-v.y) * (-v.y) == v.y * v.y) by (nonlinear_arith);
    assert((-v.z) * (-v.z) == v.z * v.z) by (nonlinear_arith);
}

proof fn lemma_fmul_neg_left(a: int, b: int)
    ensures
        spec_fmul(-a, b) == -spec_fmul(a, b),
{
    assert((-a) * b == -(a * b)) by (nonlinear_arith);
}

/// A vector that is not near zero has a computed squared length of at
/// least one fixed-point step, so it can be normalized.
pub proof fn lemma_not_near_zero_ls(v: Vec3)
    requires
        !v.spec_near_zero(),
        v.bounded(VEC_LIMIT as int),
    ensures
        v.spec_length_squared() >= 1,
{
    lemma_length_squared_nonneg(v);
    if v.x >= NEAR_EPS || v.x <= -NEAR_EPS {
        lemma_big_square(v.x as int);
    } else if v.y >= NEAR_EPS || v.y <= -NEAR_EPS {
        lemma_big_square(v.y as int);
    } else {
        lemma_big_square(v.z as int);
    }
}

proof fn lemma_big_square(c: int)
    requires
        c >= NEAR_EPS as int || c <= -(NEAR_EPS as int),
    ensures
        spec_fmul(c, c) >= 1,
{
    assert(c * c >= (SCALE as int)) by (nonlinear_arith)
        requires c >= 256 || c <= -256;
    lemma_tdiv_mono(SCALE as int, c * c, SCALE as int);
}

/// Exact integer dot product, with no fixed-point scaling: the
/// mathematical model behind `spec_dot`.
pub open spec fn exact_dot(v: Vec3, u: Vec3) -> int {
    v.x * u.x + v.y * u.y + v.z * u.z
}

/// The mirror of `v` about the plane with normal `n`, scaled by
/// `q = <n, n>` so that it stays in exact integers: `q v - 2 <v, n> n`.
pub open spec fn exact_reflect(v: Vec3, n: Vec3) -> (int, int, int) {
    (
        exact_dot(n, n) * v.x - 2 * exact_dot(v, n) * n.x,
        exact_dot(n, n) * v.y - 2 * exact_dot(v, n) * n.y,
        exact_dot(n, n) * v.z - 2 * exact_dot(v, n) * n.z,
    )
}

pub open spec fn exact_dot_triple(t: (int, int, int), n: Vec3) -> int {
    t.0 * n.x + t.1 * n.y + t.2 * n.z
}

pub open spec fn exact_norm_triple(t: (int, int, int)) -> int {
    t.0 * t.0 + t.1 * t.1 + t.2 * t.2
}

/// Reflection flips the normal component of a vector and preserves its
/// magnitude. In the exact integer model, with `q = <n, n>` and the
/// `q`-scaled mirror `w = q v - 2 <v, n> n`:
/// `<w, n> == -q <v, n>` and `<w, w> == q^2 <v, v>`.
/// Read at unit `q` this is `dot(reflect(v, n), n) == -dot(v, n)`, with
/// `|reflect(v, n)| == |v|`, for every vector `v` and unit normal `n`.
pub proof fn lemma_reflect_law(v: Vec3, n: Vec3)
    ensures
        exact_dot_triple(exact_reflect(v, n), n) == -exact_dot(n, n) * exact_dot(v, n),
        exact_norm_triple(exact_reflect(v, n)) == exact_dot(n, n) * exact_dot(n, n) * exact_dot(
            v,
            v,
        ),
{
    let q = exact_dot(n, n);
    let d = exact_dot(v, n);
    lemma_mirror_dot_step(q, d, v.x as int, n.x as int);
    lemma_mirror_dot_step(q, d, v.y as int, n.y as int);
    lemma_mirror_dot_step(q, d, v.z as int, n.z as int);
    lemma_mul_distrib3(q, v.x * n.x, v.y * n.y, v.z * n.z);
    lemma_mul_distrib3(2 * d, n.x * n.x, n.y * n.y, n.z * n.z);
    assert(q * d - (2 * d) * q == (-q) * d) by (nonlinear_arith);
    lemma_mirror_norm_step(q, d, v.x as int, n.x as int);
    lemma_mirror_norm_step(q, d, v.y as int, n.y as int);
    lemma_mirror_norm_step(q, d, v.z as int, n.z as int);
    lemma_mul_distrib3(q * q, v.x * v.x, v.y * v.y, v.z * v.z);
    lemma_mul_distrib3(4 * (q * d), v.x * n.x, v.y * n.y, v.z * n.z);
    lemma_mul_distrib3(4 * (d * d), n.x * n.x, n.y * n.y, n.z * n.z);
    assert((4 * (q * d)) * d == (4 * (d * d)) * q) by (nonlinear_arith);
}

proof fn lemma_mirror_dot_step(q: int, d: int, vc: int, nc: int)
    ensures
        (q * vc - 2 * d * nc) * nc == q * (vc * nc) - (2 * d) * (nc * nc),
{
    assert((q * vc - 2 * d * nc) * nc == q * (vc * nc) - (2 * d) * (nc * nc))
        by (nonlinear_arith);
}

proof fn lemma_mirror_norm_step(q: int, d: int, vc: int, nc: int)
    ensures
        (q * vc - 2 * d * nc) * (q * vc - 2 * d * nc) == (q * q) * (vc * vc) - (4 * (q * d)) * (vc
            * nc) + (4 * (d * d)) * (nc * nc),
{
    lemma_square_of_diff(q * vc, 2 * d * nc);
    lemma_mul_swap(q, vc, q, vc);
    lemma_mul_swap(q, vc, 2 * d, nc);
    lemma_mul_double(q, d, vc * nc);
    lemma_mul_swap(2 * d, nc, 2 * d, nc);
    lemma_mul_quad(d, nc * nc);
}

proof fn lemma_square_of_diff(a: int, b: int)
    ensures
        (a - b) * (a - b) == a * a - 2 * (a * b) + b * b,
{
    assert((a - b) * (a - b) == a * a - 2 * (a * b) + b * b) by (nonlinear_arith);
}

proof fn lemma_mul_swap(a: int, b: int, c: int, d: int)
    ensures
        (a * b) * (c * d) == (a * c) * (b * d),
{
    assert((a * b) * (c * d) == (a * c) * (b * d)) by (nonlinear_arith);
}

proof fn lemma_mul_double(q: int, d: int, m: int)
    ensures
        2 * ((q * (2 * d)) * m) == (4 * (q * d)) * m,
{
    assert(2 * ((q * (2 * d)) * m) == (4 * (q * d)) * m) by (nonlinear_arith);
}

proof fn lemma_mul_quad(d: int, m: int)
    ensures
        ((2 * d) * (2 * d)) * m == (4 * (d * d)) * m,
{
    assert(((2 * d) * (2 * d)) * m == (4 * (d * d)) * m) by (nonlinear_arith);
}

proof fn lemma_mul_distrib3(k: int, a: int, b: int, c: int)
    ensures
        k * a + k * b + k * c == k * (a + b + c),
{
    assert(k * a + k * b + k * c == k * (a + b + c)) by (nonlinear_arith);
}

/// For a unit normal that fixed point represents exactly (here: along
/// the y axis), the rounded reflection is itself exact, so the
/// reflection law holds of the executable arithmetic with no error
/// term: the normal component flips sign, the rest is untouched, and
/// `dot(reflect(v, n), n) == -dot(v, n)`.
pub proof fn lemma_reflect_exact_about_y(v: Vec3, n: Vec3)
    requires
        n.x == 0,
        n.z == 0,
        n.y == SCALE || n.y == -SCALE,
        v.y != i64::MIN,
    ensures
        v.spec_reflect(n) == (Vec3 { x: v.x, y: (-v.y) as i64, z: v.z }),
        v.spec_reflect(n).spec_dot(n) == -v.spec_dot(n),
{
    let s = SCALE as int;
    lemma_tdiv_cancel(v.y as int, s);
    lemma_tdiv_cancel(-(v.y as int), s);
    assert((v.y as int) * (-s) == (-(v.y as int)) * s) by (nonlinear_arith);
    assert((v.x as int) * 0 == 0 && (v.z as int) * 0 == 0) by (nonlinear_arith);
    vstd::arithmetic::div_mod::lemma_div_of0(s);
    let d = v.spec_dot(n);
    assert(d == if n.y == s { v.y as int } else { -(v.y as int) });
    lemma_tdiv_cancel(2 * (v.y as int), s);
    lemma_tdiv_cancel(-(2 * (v.y as int)), s);
    assert((2 * d) * (n.y as int) == (2 * (v.y as int)) * s) by (nonlinear_arith)
        requires d == if n.y == s { v.y as int } else { -(v.y as int) } && (n.y == s || n.y == -s);
    assert((2 * d) * 0 == 0) by (nonlinear_arith);
    let w = v.spec_reflect(n);
    assert(w.y as int == -(v.y as int));
    assert((w.y as int) * (n.y as int) == (-(v.y as int)) * (n.y as int));
    assert((-(v.y as int)) * (-s) == (v.y as int) * s) by (nonlinear_arith);
}

/// With both vectors within `VEC_LIMIT`, every product of a dot, cross or
/// squared length fits, and each term is at most `2^56`.
pub proof fn lemma_dot_fits(v: Vec3, u: Vec3)
    requires
        v.bounded(VEC_LIMIT as int),
        u.bounded(VEC_LIMIT as int),
    ensures
        -0x100000000000000 <= spec_fmul(v.x as int, u.x as int) <= 0x100000000000000,
        -0x100000000000000 <= spec_fmul(v.y as int, u.y as int) <= 0x100000000000000,
        -0x100000000000000 <= spec_fmul(v.z as int, u.z as int) <= 0x100000000000000,
        -0x100000000000000 <= spec_fmul(v.z as int, u.y as int) <= 0x100000000000000,
        -0x100000000000000 <= spec_fmul(v.y as int, u.z as int) <= 0x100000000000000,
        -0x100000000000000 <= spec_fmul(v.x as int, u.z as int) <= 0x100000000000000,
        -0x100000000000000 <= spec_fmul(v.z as int, u.x as int) <= 0x100000000000000,
        -0x100000000000000 <= spec_fmul(v.y as int, u.x as int) <= 0x100000000000000,
        -0x100000000000000 <= spec_fmul(v.x as int, u.y as int) <= 0x100000000000000,
        -0x300000000000000 <= v.spec_dot(u) <= 0x300000000000000,
{
    let lim = VEC_LIMIT as int;
    assert(tdiv(lim * lim, SCALE as int) == 0x100000000000000);
    lemma_fmul_bound(v.x as int, u.x as int, lim, lim);
    lemma_fmul_bound(v.y as int, u.y as int, lim, lim);
    lemma_fmul_bound(v.z as int, u.z as int, lim, lim);
    lemma_fmul_bound(v.z as int, u.y as int, lim, lim);
    lemma_fmul_bound(v.y as int, u.z as int, lim, lim);
    lemma_fmul_bound(v.x as int, u.z as int, lim, lim);
    lemma_fmul_bound(v.z as int, u.x as int, lim, lim);
    lemma_fmul_bound(v.y as int, u.x as int, lim, lim);
    lemma_fmul_bound(v.x as int, u.y as int, lim, lim);
}

/// A squared length is a sum of squares, hence nonnegative.
pub proof fn lemma_length_squared_nonneg(v: Vec3)
    ensures
        spec_fmul(v.x as int, v.x as int) >= 0,
        spec_fmul(v.y as int, v.y as int) >= 0,
        spec_fmul(v.z as int, v.z as int) >= 0,
        v.spec_length_squared() >= 0,
{
    lemma_square_fmul_nonneg(v.x as int);
    lemma_square_fmul_nonneg(v.y as int);
    lemma_square_fmul_nonneg(v.z as int);
}

proof fn lemma_square_fmul_nonneg(a: int)
    ensures
        spec_fmul(a, a) >= 0,
{
    assert(a * a >= 0) by (nonlinear_arith);
    lemma_tdiv_bounds(a * a, SCALE as int);
}

/// A vector whose computed squared length is at least one fixed-point
/// step has a computed length of at least `2^8` steps.
pub proof fn lemma_length_positive(v: Vec3)
    requires
        v.spec_length_squared() >= 1,
        v.bounded(VEC_LIMIT as int),
    ensures
        256 <= v.spec_length() <= 0x10000000000,
{
    let ls = v.spec_length_squared();
    lemma_dot_fits(v, v);
    assert((SCALE as int) <= ls * (SCALE as int) <= 0x300000000000000 * (SCALE as int))
        by (nonlinear_arith)
        requires 1 <= ls <= 0x300000000000000;
    let prod = (ls * (SCALE as int)) as nat;
    lemma_sqrt_floor_bounds(prod);
    let s = sqrt_floor(prod);
    if s < 256 {
        assert((s + 1) * (s + 1) <= 256 * 256) by (nonlinear_arith)
            requires s + 1 <= 256;
    }
    if s > 0x10000000000 {
        assert(s * s >= 0x10000000000 * 0x10000000000) by (nonlinear_arith)
            requires s >= 0x10000000000;
    }
}

proof fn lemma_div_by_length_fits(v: Vec3, len: int)
    requires
        v.bounded(VEC_LIMIT as int),
        len >= 256,
    ensures
        i64::MIN <= spec_fdiv(v.x as int, len) <= i64::MAX,
        i64::MIN <= spec_fdiv(v.y as int, len) <= i64::MAX,
        i64::MIN <= spec_fdiv(v.z as int, len) <= i64::MAX,
{
    lemma_scaled_div_fits(v.x as int, len);
    lemma_scaled_div_fits(v.y as int, len);
    lemma_scaled_div_fits(v.z as int, len);
}

proof fn lemma_scaled_div_fits(c: int, d: int)
    requires
        -(VEC_LIMIT as int) <= c <= VEC_LIMIT as int,
        d >= 1,
    ensures
        i64::MIN <= spec_fdiv(c, d) <= i64::MAX,
{
    lemma_abs_mul_le(c, SCALE as int, VEC_LIMIT as int, SCALE as int);
    lemma_tdiv_mono(c * (SCALE as int), (VEC_LIMIT as int) * (SCALE as int), d);
    lemma_tdiv_mono(-((VEC_LIMIT as int) * (SCALE as int)), c * (SCALE as int), d);
    lemma_tdiv_bounds((VEC_LIMIT as int) * (SCALE as int), d);
    assert(tdiv(-((VEC_LIMIT as int) * (SCALE as int)), d) == -tdiv(
        (VEC_LIMIT as int) * (SCALE as int),
        d,
    ));
}

proof fn lemma_reflect_fits(v: Vec3, n: Vec3)
    requires
        v.bounded(REFLECT_LIMIT as int),
        n.bounded(REFLECT_LIMIT as int),
    ensures
        -0x3000000 <= v.spec_dot(n) <= 0x3000000,
        i64::MIN <= spec_fmul(2 * v.spec_dot(n), n.x as int) <= i64::MAX,
        i64::MIN <= spec_fmul(2 * v.spec_dot(n), n.y as int) <= i64::MAX,
        i64::MIN <= spec_fmul(2 * v.spec_dot(n), n.z as int) <= i64::MAX,
        i64::MIN <= v.x - spec_fmul(2 * v.spec_dot(n), n.x as int) <= i64::MAX,
        i64::MIN <= v.y - spec_fmul(2 * v.spec_dot(n), n.y as int) <= i64::MAX,
        i64::MIN <= v.z - spec_fmul(2 * v.spec_dot(n), n.z as int) <= i64::MAX,
{
    let lim = REFLECT_LIMIT as int;
    assert(tdiv(lim * lim, SCALE as int) == 0x1000000);
    lemma_fmul_bound(v.x as int, n.x as int, lim, lim);
    lemma_fmul_bound(v.y as int, n.y as int, lim, lim);
    lemma_fmul_bound(v.z as int, n.z as int, lim, lim);
    let d = v.spec_dot(n);
    lemma_fmul_bound(2 * d, n.x as int, 0x6000000, lim);
    lemma_fmul_bound(2 * d, n.y as int, 0x6000000, lim);
    lemma_fmul_bound(2 * d, n.z as int, 0x6000000, lim);
    lemma_tdiv_bounds(0x6000000 * lim, SCALE as int);
}

} // verus!
