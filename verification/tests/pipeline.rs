// The rendering pipeline: intersection, scene reduction, materials,
// radiance, and image assembly. Coordinates are fixed-point (1.0 == 65536).

use rand::SeedableRng;
use raytracer::camera::Camera;
use raytracer::fixed::{HALF, SCALE};
use raytracer::hittable::{HitRecord, Hittable};
use raytracer::hittable_list::HittableList;
use raytracer::material::{Dielectric, Lambertian, Material, Metal};
use raytracer::ray::{Ray, T_LIMIT};
use raytracer::render::{
    color_to_byte, ray_color, render_image, render_image_chunk, sample_color, sky_color,
    RenderSettings, T_EPSILON,
};
use raytracer::sphere::Sphere;
use raytracer::vec3::Vec3;

fn gray() -> Material {
    Material::Lambertian(Lambertian::new(Vec3::new(32768, 32768, 32768)))
}

fn unit_z_ray() -> Ray {
    Ray::new(Vec3::new(0, 0, 0), Vec3::new(0, 0, -65536))
}

/// The two-sphere scene: a ground sphere of radius 100 centered at
/// (0, -100.5, -1) and a small sphere of radius 0.5 at (0, 0, -1).
fn two_sphere_scene() -> HittableList {
    let mut world = HittableList::new();
    world.add(Sphere::new(
        Vec3::new(0, -6586368, -65536),
        6553600,
        gray(),
    ));
    world.add(Sphere::new(Vec3::new(0, 0, -65536), 32768, gray()));
    world
}

#[test]
fn sphere_hit_reports_exact_root_point_and_normal() {
    let sphere = Sphere::new(Vec3::new(0, 0, -65536), 32768, gray());
    let ray = unit_z_ray();
    let hit = sphere.is_hit(&ray, T_EPSILON, T_LIMIT).unwrap();
    // The quadratic solves exactly: t = 0.5, hit point (0, 0, -0.5),
    // outward unit normal (0, 0, 1), struck from outside.
    assert_eq!(hit.t, 32768);
    assert_eq!(hit.point, Vec3::new(0, 0, -32768));
    assert_eq!(hit.point, ray.at(hit.t));
    assert!(T_EPSILON <= hit.t && hit.t <= T_LIMIT);
    assert_eq!(hit.normal, Vec3::new(0, 0, 65536));
    assert!(hit.front_face);
}

#[test]
fn sphere_miss_and_window_rejection() {
    let sphere = Sphere::new(Vec3::new(0, 0, -65536), 32768, gray());
    let up = Ray::new(Vec3::new(0, 0, 0), Vec3::new(0, 65536, 0));
    assert!(sphere.is_hit(&up, T_EPSILON, T_LIMIT).is_none());
    // The hit at t = 0.5 falls outside a window capped at t = 0.25.
    let ray = unit_z_ray();
    assert!(sphere.is_hit(&ray, T_EPSILON, 16384).is_none());
    // From inside the sphere, the ray strikes the back face.
    let inside = Ray::new(Vec3::new(0, 0, -65536), Vec3::new(0, 0, -65536));
    let back = sphere.is_hit(&inside, T_EPSILON, T_LIMIT).unwrap();
    assert!(!back.front_face);
    assert_eq!(back.normal, Vec3::new(0, 0, 65536));
}

#[test]
fn scene_returns_the_minimum_t_hit() {
    // Two spheres on one ray: the scene must report the nearer, which is
    // also the minimum over testing each primitive independently.
    let near = Sphere::new(Vec3::new(0, 0, -65536), 32768, gray());
    let far = Sphere::new(Vec3::new(0, 0, -262144), 32768, gray());
    let mut world = HittableList::new();
    world.add(far);
    world.add(near);
    let ray = unit_z_ray();
    let scene_hit = world.is_hit(&ray, T_EPSILON, T_LIMIT).unwrap();
    let near_hit = near.is_hit(&ray, T_EPSILON, T_LIMIT).unwrap();
    let far_hit = far.is_hit(&ray, T_EPSILON, T_LIMIT).unwrap();
    assert_eq!(scene_hit, near_hit);
    assert!(near_hit.t <= far_hit.t);
    // An empty scene reports nothing.
    let empty = HittableList::new();
    assert!(empty.is_hit(&ray, T_EPSILON, T_LIMIT).is_none());
}

#[test]
fn missing_every_primitive_yields_the_sky_gradient() {
    let world = two_sphere_scene();
    let dir = Vec3::new(0, 65536, 0);
    let ray = Ray::new(Vec3::new(0, 0, 0), dir);
    let mut rng = rand::rngs::StdRng::seed_from_u64(5);
    let c = ray_color(&ray, &world, 3, &mut rng);
    // The estimate equals the sky gradient for the direction, and the
    // same color comes back with the scene emptied: it is independent
    // of scene contents.
    assert_eq!(c, sky_color(&dir));
    let empty = HittableList::new();
    let c2 = ray_color(&ray, &empty, 3, &mut rng);
    assert_eq!(c2, sky_color(&dir));
    // Straight up, the gradient is the zenith color (0.5, 0.7, 1.0).
    assert_eq!(sky_color(&dir), Vec3::new(32768, 45875, 65536));
}

#[test]
fn depth_zero_is_black() {
    let world = two_sphere_scene();
    let mut rng = rand::rngs::StdRng::seed_from_u64(5);
    let c = ray_color(&unit_z_ray(), &world, 0, &mut rng);
    assert_eq!(c, Vec3::new(0, 0, 0));
}

#[test]
fn lambertian_always_scatters_from_the_hit_point() {
    let albedo = Vec3::new(45875, 19661, 19661);
    let material = Material::Lambertian(Lambertian::new(albedo));
    let sphere = Sphere::new(Vec3::new(0, 0, -65536), 32768, material);
    let ray = unit_z_ray();
    let hit = sphere.is_hit(&ray, T_EPSILON, T_LIMIT).unwrap();
    let mut rng = rand::rngs::StdRng::seed_from_u64(9);
    let mut attenuation = Vec3::new(0, 0, 0);
    let mut scattered = Ray::default();
    let scattered_ok =
        material.scatter(&ray, &hit, &mut attenuation, &mut scattered, &mut rng);
    assert!(scattered_ok);
    assert_eq!(attenuation, albedo);
    assert_eq!(scattered.origin, hit.point);
    // The scattered direction is never degenerate.
    assert!(scattered.direction.length_squared() >= 1);
}

#[test]
fn metal_with_zero_fuzz_is_an_exact_mirror() {
    let albedo = Vec3::new(52429, 39322, 13107);
    let material = Material::Metal(Metal::new(albedo, 0));
    let hit = HitRecord {
        point: Vec3::new(0, 0, -32768),
        normal: Vec3::new(0, 0, 65536),
        t: 32768,
        front_face: true,
        material,
    };
    // Incoming at 45 degrees in the x/z plane.
    let ray = Ray::new(Vec3::new(-65536, 0, 32768), Vec3::new(65536, 0, -65536));
    let mut rng = rand::rngs::StdRng::seed_from_u64(3);
    let mut attenuation = Vec3::new(0, 0, 0);
    let mut scattered = Ray::default();
    assert!(material.scatter(&ray, &hit, &mut attenuation, &mut scattered, &mut rng));
    assert_eq!(attenuation, albedo);
    assert_eq!(scattered.origin, hit.point);
    // reflect(normalize(1, 0, -1), z) == (0.7071, 0, 0.7071) in fixed point.
    assert_eq!(scattered.direction, Vec3::new(46341, 0, 46341));
    assert!(Vec3::dot(&scattered.direction, &hit.normal) > 0);
}

#[test]
fn metal_clamps_fuzz_and_absorbs_degenerate_rays() {
    let m = Metal::new(Vec3::new(65536, 65536, 65536), 99999999);
    assert_eq!(m.fuzz, SCALE);
    let m2 = Metal::new(Vec3::new(65536, 65536, 65536), -5);
    assert_eq!(m2.fuzz, 0);
    let material = Material::Metal(m);
    let hit = HitRecord {
        point: Vec3::new(0, 0, -32768),
        normal: Vec3::new(0, 0, 65536),
        t: 32768,
        front_face: true,
        material,
    };
    // A zero direction cannot be normalized: the ray is absorbed.
    let degenerate = Ray::new(Vec3::new(0, 0, 0), Vec3::new(0, 0, 0));
    let mut rng = rand::rngs::StdRng::seed_from_u64(3);
    let mut attenuation = Vec3::new(0, 0, 0);
    let mut scattered = Ray::default();
    assert!(!material.scatter(&degenerate, &hit, &mut attenuation, &mut scattered, &mut rng));
}

#[test]
fn dielectric_scatters_white_and_reflects_or_refracts() {
    let material = Material::Dielectric(Dielectric::new(98304));
    let hit = HitRecord {
        point: Vec3::new(0, 0, -32768),
        normal: Vec3::new(0, 0, 65536),
        t: 32768,
        front_face: true,
        material,
    };
    let ray = unit_z_ray();
    let mut rng = rand::rngs::StdRng::seed_from_u64(21);
    for _ in 0..16 {
        let mut attenuation = Vec3::new(0, 0, 0);
        let mut scattered = Ray::default();
        assert!(material.scatter(&ray, &hit, &mut attenuation, &mut scattered, &mut rng));
        assert_eq!(attenuation, Vec3::new(65536, 65536, 65536));
        assert_eq!(scattered.origin, hit.point);
        // Head-on, refraction continues straight through and reflection
        // bounces straight back; Schlick's draw picks between them.
        assert!(
            scattered.direction == Vec3::new(0, 0, -65536)
                || scattered.direction == Vec3::new(0, 0, 65536)
        );
    }
}

#[test]
fn sample_color_averages_clamps_and_gamma_corrects() {
    // Four samples summing to 1.0 per channel: average 0.25, square
    // root 0.5.
    let mut c = Vec3::new(65536, 65536, 65536);
    sample_color(&mut c, 4);
    assert_eq!(c, Vec3::new(32768, 32768, 32768));
    // A channel at the cap stays within the clamp before the root.
    let mut d = Vec3::new(65536, 0, 0);
    sample_color(&mut d, 1);
    assert_eq!(d.y, 0);
    assert!(d.x <= 65535);
    assert_eq!(color_to_byte(d.x), 255);
}

#[test]
fn color_bytes_round_to_nearest() {
    assert_eq!(color_to_byte(0), 0);
    assert_eq!(color_to_byte(32768), 128);
    assert_eq!(color_to_byte(65535), 255);
    assert_eq!(color_to_byte(45875), 178);
}

#[test]
fn center_pixel_sees_the_near_sphere_apex() {
    // A scene of one large ground sphere and one small
    // sphere dead ahead: the ray through the image center strikes the
    // small sphere's apex, whose normal visualizes (with the
    // 0.5 * (normal + 1) convention) as (0.5, 0.5, 1.0); rays far above
    // match the sky zenith (0.5, 0.7, 1.0).
    let world = two_sphere_scene();
    let center_ray = unit_z_ray();
    let hit = world.is_hit(&center_ray, T_EPSILON, T_LIMIT).unwrap();
    assert_eq!(hit.t, 32768);
    assert_eq!(hit.normal, Vec3::new(0, 0, 65536));
    let ones = Vec3::new(65536, 65536, 65536);
    let shading = hit.normal.add(ones).scale(HALF);
    assert_eq!(shading, Vec3::new(32768, 32768, 65536));
    assert_eq!(
        [
            color_to_byte(shading.x),
            color_to_byte(shading.y),
            color_to_byte(shading.z),
        ],
        [128, 128, 255]
    );
    // Far above the scene the estimator returns the sky gradient.
    let up = Vec3::new(0, 65536, 0);
    let mut rng = rand::rngs::StdRng::seed_from_u64(2);
    let sky = ray_color(&Ray::new(Vec3::new(0, 0, 0), up), &world, 1, &mut rng);
    assert_eq!(sky, Vec3::new(32768, 45875, 65536));
    assert_eq!(
        [color_to_byte(sky.x), color_to_byte(sky.y), color_to_byte(sky.z)],
        [128, 178, 255]
    );
}

#[test]
fn single_sample_depth_one_renders_a_valid_image() {
    // samples_per_pixel = 1 and max_depth = 1: a full image buffer of
    // whole RGB pixels, every byte necessarily in range.
    let settings = RenderSettings::new(8, 65536, 1, 1, 3);
    assert_eq!(settings.image_height, 8);
    let world = two_sphere_scene();
    let camera = Camera::new(65536);
    let bytes = render_image(&settings, &world, &camera, 40);
    assert_eq!(bytes.len(), 3 * 8 * 8);
}

#[test]
fn seeded_renders_are_reproducible() {
    let settings = RenderSettings::new(10, 81920, 4, 6, 2);
    // Width 10 over aspect 1.25 gives height 8.
    assert_eq!(settings.image_height, 8);
    let world = two_sphere_scene();
    let camera = Camera::new(81920);
    let first = render_image(&settings, &world, &camera, 1234);
    let second = render_image(&settings, &world, &camera, 1234);
    assert_eq!(first, second);
    assert_eq!(first.len(), 3 * 10 * 8);
}

#[test]
fn chunks_assemble_into_the_whole_image() {
    // Rendering the two halves with the seeds the assembler uses
    // reproduces the assembled image.
    let settings = RenderSettings::new(6, 98304, 2, 3, 2);
    assert_eq!(settings.image_height, 4);
    let world = two_sphere_scene();
    let camera = Camera::new(98304);
    let whole = render_image(&settings, &world, &camera, 77);
    let mut rng0 = rand::rngs::StdRng::seed_from_u64(77);
    let mut rng1 = rand::rngs::StdRng::seed_from_u64(78);
    let half0 = render_image_chunk(&settings, &world, &camera, 0, 12, &mut rng0);
    let half1 = render_image_chunk(&settings, &world, &camera, 12, 12, &mut rng1);
    let mut assembled = half0.clone();
    assembled.extend_from_slice(&half1);
    assert_eq!(whole, assembled);
}

#[test]
fn camera_rays_span_the_viewport() {
    let camera = Camera::new(65536);
    // u = v = 0.5 looks straight down -z for a symmetric viewport.
    let center = camera.get_viewport_ray(32768, 32768);
    assert_eq!(center.origin, Vec3::new(0, 0, 0));
    assert_eq!(center.direction, Vec3::new(0, 0, -65536));
    let corner = camera.get_viewport_ray(0, 0);
    assert_eq!(corner.direction, Vec3::new(-65536, -65536, -65536));
}

#[test]
fn attenuation_never_creates_energy() {
    // A channel filtered through per-bounce albedos never exceeds the
    // incoming value, and never exceeds the product of the albedos.
    let full = 65536;
    let albedo = 39322; // 0.6
    let after_one = raytracer::fixed::fmul(albedo, full);
    let after_two = raytracer::fixed::fmul(albedo, after_one);
    assert!(after_one <= full);
    assert!(after_two <= after_one);
    assert_eq!(after_one, albedo);
    assert_eq!(after_two, 23593); // about 0.36
    // The radiance estimate itself stays within [0, 1] per channel on a
    // scene that is hit repeatedly.
    let world = two_sphere_scene();
    let mut rng = rand::rngs::StdRng::seed_from_u64(6);
    for _ in 0..8 {
        let c = ray_color(&unit_z_ray(), &world, 12, &mut rng);
        assert!(0 <= c.x && c.x <= 65536);
        assert!(0 <= c.y && c.y <= 65536);
        assert!(0 <= c.z && c.z <= 65536);
    }
}

#[test]
fn total_internal_reflection_always_mirrors() {
    // Leaving glass (index 1.5) at a grazing angle: ratio * sin exceeds
    // one, so the dielectric must reflect, deterministically.
    let material = Material::Dielectric(Dielectric::new(98304));
    let hit = HitRecord {
        point: Vec3::new(0, 0, 0),
        normal: Vec3::new(0, 0, 65536),
        t: 65536,
        front_face: false,
        material,
    };
    let ray = Ray::new(Vec3::new(-65536, 0, 32768), Vec3::new(65536, 0, -32768));
    let mut rng = rand::rngs::StdRng::seed_from_u64(4);
    for _ in 0..8 {
        let mut attenuation = Vec3::new(0, 0, 0);
        let mut scattered = Ray::default();
        assert!(material.scatter(&ray, &hit, &mut attenuation, &mut scattered, &mut rng));
        assert_eq!(scattered.direction, Vec3::new(58617, 0, 29308));
    }
}

#[test]
fn settings_derive_the_height_by_truncation() {
    let s = RenderSettings::new(100, 98304, 7, 9, 4);
    assert_eq!(s.image_height, 66); // 100 / 1.5, truncated
    assert_eq!(s.image_width, 100);
    assert_eq!(s.samples_per_pixel, 7);
    assert_eq!(s.max_depth, 9);
    assert_eq!(s.num_threads, 4);
    let square = RenderSettings::new(64, 65536, 1, 1, 1);
    assert_eq!(square.image_height, 64);
}

#[test]
fn scene_grows_in_insertion_order() {
    let mut world = HittableList::new();
    assert_eq!(world.objects.len(), 0);
    let a = Sphere::new(Vec3::new(0, 0, -65536), 32768, gray());
    let b = Sphere::new(Vec3::new(65536, 0, -65536), 16384, gray());
    world.add(a);
    world.add(b);
    assert_eq!(world.objects.len(), 2);
    assert_eq!(world.objects[0], a);
    assert_eq!(world.objects[1], b);
}

#[test]
fn empty_scene_renders_only_sky() {
    // With no primitives, every sample is the sky gradient of its own
    // ray; the sky's blue channel is exactly 1.0, so every pixel's blue
    // byte is 255 no matter what the jitter draws were.
    let settings = RenderSettings::new(6, 98304, 2, 3, 2);
    let world = HittableList::new();
    let camera = Camera::new(98304);
    let bytes = render_image(&settings, &world, &camera, 31);
    assert_eq!(bytes.len(), 3 * 6 * 4);
    let mut i = 2;
    while i < bytes.len() {
        assert_eq!(bytes[i], 255);
        i += 3;
    }
}

#[test]
fn metal_with_fuzz_scatters_head_on() {
    // A head-on mirror leaves margin for a small fuzz, so the contract
    // owes a scattered ray for every perturbation the generator draws.
    let albedo = Vec3::new(52429, 52429, 52429);
    let material = Material::Metal(Metal::new(albedo, 3277)); // fuzz 0.05
    let hit = HitRecord {
        point: Vec3::new(0, 0, -32768),
        normal: Vec3::new(0, 0, 65536),
        t: 32768,
        front_face: true,
        material,
    };
    let ray = unit_z_ray();
    let mut rng = rand::rngs::StdRng::seed_from_u64(17);
    for _ in 0..8 {
        let mut attenuation = Vec3::new(0, 0, 0);
        let mut scattered = Ray::default();
        assert!(material.scatter(&ray, &hit, &mut attenuation, &mut scattered, &mut rng));
        assert_eq!(attenuation, albedo);
        assert_eq!(scattered.origin, hit.point);
        assert!(Vec3::dot(&scattered.direction, &hit.normal) > 0);
    }
}

#[test]
fn pixel_rows_are_flipped_from_the_top() {
    // Row 0 of the buffer is the scene's top: its viewport row is
    // height - 1, so its rays aim upward and (in an empty scene) land
    // higher on the sky gradient than the bottom row's. The gradient's
    // red channel falls with height, so the top row's red byte is
    // smaller.
    let settings = RenderSettings::new(4, 65536, 1, 2, 1);
    assert_eq!(settings.image_height, 4);
    let world = HittableList::new();
    let camera = Camera::new(65536);
    let bytes = render_image(&settings, &world, &camera, 8);
    // Compare the red bytes of the first pixel of the top and bottom rows.
    let top_red = bytes[0];
    let bottom_red = bytes[3 * 4 * 3];
    assert!(top_red < bottom_red);
}
