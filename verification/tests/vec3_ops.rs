// Vector algebra over fixed-point components (1.0 == 65536).

use rand::SeedableRng;
use raytracer::fixed::{clamp, fdiv, fmul, fsqrt, HALF, SCALE};
use raytracer::vec3::Vec3;

#[test]
fn test_vec3_add() {}

#[test]
fn add_componentwise() {
    let a = Vec3::new(65536, 131072, -196608);
    let b = Vec3::new(65536, 65536, 65536);
    let c = a.add(b);
    assert_eq!(c, Vec3::new(131072, 196608, -131072));
}

#[test]
fn sub_componentwise() {
    let a = Vec3::new(65536, 0, 32768);
    let b = Vec3::new(32768, 65536, 32768);
    assert_eq!(a.sub(b), Vec3::new(32768, -65536, 0));
}

#[test]
fn hadamard_mul_scales_each_channel() {
    let a = Vec3::new(65536, 32768, 0);
    let b = Vec3::new(32768, 32768, 65536);
    assert_eq!(a.mul(b), Vec3::new(32768, 16384, 0));
}

#[test]
fn scale_and_div_by_scalar() {
    let a = Vec3::new(65536, -131072, 32768);
    assert_eq!(a.scale(32768), Vec3::new(32768, -65536, 16384));
    assert_eq!(a.div_by(131072), Vec3::new(32768, -65536, 16384));
}

#[test]
fn dot_of_unit_axes() {
    let x = Vec3::new(65536, 0, 0);
    let y = Vec3::new(0, 65536, 0);
    assert_eq!(Vec3::dot(&x, &x), 65536);
    assert_eq!(Vec3::dot(&x, &y), 0);
}

#[test]
fn cross_orientation_is_left_handed() {
    let x = Vec3::new(65536, 0, 0);
    let y = Vec3::new(0, 65536, 0);
    // This convention gives cross(x, y) == -z.
    assert_eq!(Vec3::cross(&x, &y), Vec3::new(0, 0, -65536));
}

#[test]
fn length_of_three_four_zero_is_five() {
    let v = Vec3::new(3 * 65536, 4 * 65536, 0);
    assert_eq!(v.length_squared(), 25 * 65536);
    assert_eq!(v.length(), 5 * 65536);
}

#[test]
fn normalized_unit_axis_is_exact() {
    let v = Vec3::new(0, 0, -3 * 65536);
    assert_eq!(v.normalized(), Vec3::new(0, 0, -65536));
}

#[test]
fn reflect_flips_the_normal_component() {
    // v = (1, -1, 0) against the upward unit normal: the y component
    // flips, so dot(reflect(v, n), n) == -dot(v, n).
    let v = Vec3::new(65536, -65536, 0);
    let n = Vec3::new(0, 65536, 0);
    let r = v.reflect(&n);
    assert_eq!(r, Vec3::new(65536, 65536, 0));
    assert_eq!(Vec3::dot(&r, &n), -Vec3::dot(&v, &n));
    // Magnitude is preserved.
    assert_eq!(r.length_squared(), v.length_squared());
}

#[test]
fn near_zero_uses_absolute_values() {
    assert!(Vec3::new(255, -255, 0).is_near_zero());
    assert!(!Vec3::new(256, 0, 0).is_near_zero());
    assert!(!Vec3::new(0, -256, 0).is_near_zero());
}

#[test]
fn fixed_point_scalar_kernel() {
    assert_eq!(fmul(65536, 65536), 65536);
    assert_eq!(fmul(-32768, 32768), -16384);
    assert_eq!(fdiv(65536, 131072), 32768);
    assert_eq!(fsqrt(4 * 65536), 2 * 65536);
    assert_eq!(fsqrt(16384), 32768);
    assert_eq!(clamp(70000, 0, SCALE), SCALE);
    assert_eq!(clamp(-3, 0, SCALE), 0);
    assert_eq!(HALF * 2, SCALE);
}

#[test]
fn random_vectors_stay_in_their_ranges() {
    let mut rng = rand::rngs::StdRng::seed_from_u64(11);
    let mut all_equal = true;
    let mut prev = None;
    for _ in 0..8 {
        let v = Vec3::random(&mut rng);
        assert!(0 <= v.x && v.x < SCALE);
        assert!(0 <= v.y && v.y < SCALE);
        assert!(0 <= v.z && v.z < SCALE);
        if let Some(p) = prev {
            if p != v {
                all_equal = false;
            }
        }
        prev = Some(v);
    }
    // A generator that ignored its state would repeat one value.
    assert!(!all_equal);
    let w = Vec3::random_in_range(&mut rng, -SCALE, SCALE);
    assert!(-SCALE <= w.x && w.x < SCALE);
    let p = Vec3::random_in_unit_sphere(&mut rng);
    assert!(p.length_squared() < SCALE);
    let n = Vec3::new(0, 0, 65536);
    let h = Vec3::random_in_hemisphere(&mut rng, &n);
    assert!(Vec3::dot(&h, &n) >= 0);
    let u = Vec3::random_unit_vector(&mut rng);
    assert!(u.x.abs() <= 2 * SCALE && u.y.abs() <= 2 * SCALE && u.z.abs() <= 2 * SCALE);
    // The sampled direction has unit computed length within tolerance.
    let ls = u.length_squared();
    assert!(SCALE - 128 <= ls && ls <= SCALE + 128);
}
