//! The radiance estimator and the image assembly.
//!
//! `ray_color` follows a ray through the scene to a bounded depth;
//! `render_image_chunk` samples and quantizes a contiguous run of pixels;
//! `render_image` assembles the chunks in order, giving each its own
//! seeded random generator so that a parallel driver can reproduce the
//! same bytes chunk by chunk.

use vstd::prelude::*;

verus! {

use crate::fixed::SCALE;
use crate::fixed::HALF;
use crate::fixed::spec_fmul;
use crate::fixed::spec_fsqrt;
use crate::fixed::spec_clamp;
use crate::fixed::sqrt_floor;
use crate::fixed::tdiv;
use crate::fixed::fmul;
use crate::fixed::fsqrt;
use crate::fixed::clamp;
use crate::fixed::lemma_fmul_attenuates;
use crate::fixed::lemma_fmul_mono;
use crate::fixed::lemma_tdiv_cancel;
use crate::fixed::lemma_tdiv_bounds;
use crate::fixed::lemma_tdiv_mono;
use crate::fixed::lemma_abs_mul_le;
use crate::fixed::lemma_div_le;
use crate::fixed::lemma_sqrt_floor_bounds;
use crate::fixed::lemma_sqrt_floor_unique;
use crate::vec3::Vec3;
use crate::vec3::lemma_length_positive;
use crate::ray::Ray;
use crate::ray::DIR_LIMIT;
use crate::ray::POINT_LIMIT;
use crate::ray::T_LIMIT;
use crate::hittable::Hittable;
use crate::hittable_list::HittableList;
use crate::camera::Camera;
use crate::camera::spec_viewport_dir;
use crate::material::color_in_unit;
use crate::material::spec_albedo;
use crate::rng::rand_range;
use crate::rng::rng_from_seed;

/// The lower end of every radiance probe (about 0.001): keeps a
/// scattered ray from immediately re-hitting its own origin surface.
pub const T_EPSILON: i64 = 66;

/// Channels are clamped here (about 0.999) before gamma correction.
pub const CLAMP_MAX: i64 = 65470;

/// The most pixels one render call accepts.
pub const PIXEL_COUNT_LIMIT: i64 = 1073741824;

/// The sky gradient for a ray direction: white at the horizon blended
/// toward sky blue at the zenith by the normalized direction's height,
/// black for a direction too short to normalize.
pub open spec fn spec_sky_color(dir: Vec3) -> Vec3 {
    if dir.spec_length_squared() < 1 {
        Vec3 { x: 0, y: 0, z: 0 }
    } else {
        let unit = dir.spec_normalized();
        let t = spec_clamp(spec_fmul(HALF as int, unit.y + SCALE as int), 0, SCALE as int);
        let white = Vec3 { x: SCALE, y: SCALE, z: SCALE };
        let blue = Vec3 { x: HALF, y: 45875, z: SCALE };
        white.spec_scale(SCALE as int - t).spec_add(blue.spec_scale(t))
    }
}

/// The background color for a ray of the given direction.
pub fn sky_color(direction: &Vec3) -> (r: Vec3)
    requires
        direction.bounded(DIR_LIMIT as int),
    ensures
        r == spec_sky_color(*direction),
        color_in_unit(r),
{
    let ls = direction.length_squared();
    if ls < 1 {
        return Vec3::new(0, 0, 0);
    }
    let unit = direction.normalized();
    proof {
        lemma_length_positive(*direction);
        let len = direction.spec_length();
        lemma_abs_mul_le(direction.y as int, SCALE as int, DIR_LIMIT as int, SCALE as int);
        lemma_tdiv_mono(direction.y * (SCALE as int), (DIR_LIMIT as int) * (SCALE as int), len);
        lemma_tdiv_mono(-((DIR_LIMIT as int) * (SCALE as int)), direction.y * (SCALE as int), len);
        lemma_tdiv_bounds((DIR_LIMIT as int) * (SCALE as int), len);
        assert(tdiv(-((DIR_LIMIT as int) * (SCALE as int)), len) == -tdiv(
            (DIR_LIMIT as int) * (SCALE as int),
            len,
        ));
        lemma_abs_mul_le(HALF as int, unit.y + SCALE as int, HALF as int, 0x400010000);
    }
    let t = clamp(fmul(HALF, unit.y + SCALE), 0, SCALE);
    let white = Vec3::new(SCALE, SCALE, SCALE);
    let blue = Vec3::new(HALF, 45875, SCALE);
    proof {
        lemma_tdiv_cancel(SCALE as int - t as int, SCALE as int);
        assert((SCALE as int) * (SCALE as int - t as int) == (SCALE as int - t as int) * (
        SCALE as int)) by (nonlinear_arith);
        lemma_fmul_attenuates(HALF as int, t as int);
        lemma_fmul_attenuates(45875, t as int);
        lemma_fmul_attenuates(SCALE as int, t as int);
    }
    white.scale(SCALE - t).add(blue.scale(t))
}

/// Estimate the light arriving along `ray`: black once the bounce budget
/// is exhausted, the sky gradient on a miss, and otherwise the scattered
/// ray's estimate filtered by the material's attenuation. Every channel
/// of the estimate stays in `[0, 1]`: no bounce creates energy.
pub fn ray_color(
    ray: &Ray,
    world: &HittableList,
    depth: u32,
    rng: &mut rand::rngs::StdRng,
) -> (r: Vec3)
    requires
        world.wf(),
        ray.origin.bounded(POINT_LIMIT as int),
        ray.direction.bounded(DIR_LIMIT as int),
    ensures
        color_in_unit(r),
        depth == 0 ==> r == (Vec3 { x: 0, y: 0, z: 0 }),
        depth > 0 && world.hit_spec(*ray, T_EPSILON, T_LIMIT) is None ==> r == spec_sky_color(
            ray.direction,
        ),
        depth > 0 ==> (world.hit_spec(*ray, T_EPSILON, T_LIMIT) matches Some(h) ==> (r == (Vec3 {
            x: 0,
            y: 0,
            z: 0,
        }) || exists|c: Vec3|
            color_in_unit(c) && r == #[trigger] spec_albedo(h.material).spec_mul(c))),
    decreases depth,
{
    if depth == 0 {
        return Vec3::new(0, 0, 0);
    }

    if let Some(hit_record) = world.is_hit(ray, T_EPSILON, T_LIMIT) {
        let mut scattered = Ray::default();
        let mut attenuation = Vec3::new(0, 0, 0);
        if hit_record.material.scatter(ray, &hit_record, &mut attenuation, &mut scattered, rng) {
            // A bounce that leaves the world's coordinate budget (never
            // seen for a well-formed scene) is treated as absorbed.
            if scattered.origin.in_bounds(POINT_LIMIT) {
                let rec = ray_color(&scattered, world, depth - 1, rng);
                proof {
                    lemma_fmul_attenuates(attenuation.x as int, rec.x as int);
                    lemma_fmul_attenuates(attenuation.y as int, rec.y as int);
                    lemma_fmul_attenuates(attenuation.z as int, rec.z as int);
                    assert(attenuation.spec_mul(rec) == spec_albedo(hit_record.material).spec_mul(
                        rec,
                    ));
                }
                return attenuation.mul(rec);
            }
        }
        return Vec3::new(0, 0, 0);
    }
    sky_color(&ray.direction)
}

/// The gamma-corrected average of one pixel's accumulated samples:
/// divide the channel sum by the sample count, clamp into
/// `[0, CLAMP_MAX]`, and take the square root (gamma 2).
pub open spec fn spec_sample_channel(sum: int, spp: int) -> int {
    spec_fsqrt(spec_clamp(tdiv(sum, spp), 0, CLAMP_MAX as int))
}

/// Average the accumulated color over the sample count and apply
/// gamma-2 correction, channel by channel.
pub fn sample_color(pixel_color: &mut Vec3, samples_per_pixel: u32)
    requires
        samples_per_pixel >= 1,
        0 <= old(pixel_color).x <= (samples_per_pixel as int) * (SCALE as int),
        0 <= old(pixel_color).y <= (samples_per_pixel as int) * (SCALE as int),
        0 <= old(pixel_color).z <= (samples_per_pixel as int) * (SCALE as int),
    ensures
        final(pixel_color).x as int == spec_sample_channel(
            old(pixel_color).x as int,
            samples_per_pixel as int,
        ),
        final(pixel_color).y as int == spec_sample_channel(
            old(pixel_color).y as int,
            samples_per_pixel as int,
        ),
        final(pixel_color).z as int == spec_sample_channel(
            old(pixel_color).z as int,
            samples_per_pixel as int,
        ),
        0 <= final(pixel_color).x <= 65535,
        0 <= final(pixel_color).y <= 65535,
        0 <= final(pixel_color).z <= 65535,
{
    let spp = samples_per_pixel as i64;
    proof {
        lemma_gamma_in_byte_range(old(pixel_color).x as int, spp as int);
        lemma_gamma_in_byte_range(old(pixel_color).y as int, spp as int);
        lemma_gamma_in_byte_range(old(pixel_color).z as int, spp as int);
    }
    pixel_color.x = fsqrt(clamp(pixel_color.x / spp, 0, CLAMP_MAX));
    pixel_color.y = fsqrt(clamp(pixel_color.y / spp, 0, CLAMP_MAX));
    pixel_color.z = fsqrt(clamp(pixel_color.z / spp, 0, CLAMP_MAX));
}

/// A gamma-corrected channel fits in the byte conversion's domain.
proof fn lemma_gamma_in_byte_range(sum: int, spp: int)
    requires
        spp >= 1,
        sum >= 0,
    ensures
        0 <= spec_sample_channel(sum, spp) <= 65535,
{
    lemma_tdiv_bounds(sum, spp);
    let k = spec_clamp(tdiv(sum, spp), 0, CLAMP_MAX as int);
    let prod = (k * (SCALE as int)) as nat;
    assert(0 <= k * (SCALE as int) <= 65470 * 65536) by (nonlinear_arith)
        requires 0 <= k <= 65470;
    lemma_sqrt_floor_bounds(prod);
    let s = sqrt_floor(prod);
    if s > 65535 {
        assert(s * s > 65535 * 65536) by (nonlinear_arith)
            requires s >= 65536;
    }
}

/// Quantize a gamma-corrected channel in `[0, 1]` to a byte, rounding
/// to nearest.
pub fn color_to_byte(c: i64) -> (r: u8)
    requires
        0 <= c <= 65535,
    ensures
        r as int == tdiv(c * 255 + HALF, SCALE as int),
{
    proof {
        lemma_tdiv_bounds(c * 255 + HALF, SCALE as int);
        lemma_tdiv_mono(c * 255 + HALF, 16744193, SCALE as int);
        assert(tdiv(16744193, SCALE as int) == 255);
    }
    let n = c * 255 + HALF;
    (n / SCALE) as u8
}

/// Fixed render configuration: image size (height derived from the
/// width and the aspect ratio), sampling and recursion budgets, and the
/// number of chunks a parallel driver should use.
pub struct RenderSettings {
    pub image_width: u32,
    pub image_height: u32,
    pub samples_per_pixel: u32,
    pub max_depth: u32,
    pub num_threads: usize,
}

impl RenderSettings {
    /// The image height is the width over the (fixed-point) aspect
    /// ratio, truncated.
    pub fn new(
        image_width: u32,
        aspect_ratio: i64,
        samples_per_pixel: u32,
        max_depth: u32,
        num_threads: usize,
    ) -> (r: RenderSettings)
        requires
            aspect_ratio >= 1,
            (image_width as int) * (SCALE as int) / (aspect_ratio as int) <= u32::MAX,
        ensures
            r.image_width == image_width,
            r.image_height as int == (image_width as int) * (SCALE as int) / (aspect_ratio as int),
            r.samples_per_pixel == samples_per_pixel,
            r.max_depth == max_depth,
            r.num_threads == num_threads,
    {
        let h64: u64 = (image_width as u64) * (SCALE as u64) / (aspect_ratio as u64);
        RenderSettings {
            image_width,
            image_height: h64 as u32,
            samples_per_pixel,
            max_depth,
            num_threads,
        }
    }
}

/// What every rendering entry point asks of its inputs.
pub open spec fn render_inputs_ok(
    settings: RenderSettings,
    world: HittableList,
    camera: Camera,
) -> bool {
    &&& world.wf()
    &&& camera.wf()
    &&& settings.image_width >= 2
    &&& settings.image_height >= 2
    &&& settings.samples_per_pixel >= 1
    &&& (settings.image_width as int) * (settings.image_height as int) <= PIXEL_COUNT_LIMIT as int
}

/// The column of flat pixel index `pixel` in a `w`-wide image.
pub open spec fn spec_pixel_x(pixel: int, w: int) -> int {
    pixel % w
}

/// The viewport row of flat pixel index `pixel`: the buffer is
/// row-major with row 0 at the top of the scene, so the row is flipped.
pub open spec fn spec_pixel_y(pixel: int, w: int, h: int) -> int {
    h - 1 - pixel / w
}

/// The viewport `u` coordinate of pixel `pixel` jittered by `ru`.
pub open spec fn spec_jitter_u(pixel: int, ru: int, w: int) -> int {
    tdiv(spec_pixel_x(pixel, w) * (SCALE as int) + ru, w - 1)
}

/// The viewport `v` coordinate of pixel `pixel` jittered by `rv`.
pub open spec fn spec_jitter_v(pixel: int, rv: int, w: int, h: int) -> int {
    tdiv(spec_pixel_y(pixel, w, h) * (SCALE as int) + rv, h - 1)
}

/// One possible radiance sample for pixel `pixel`: the estimate along
/// the camera ray through some jitter pair. Everything `ray_color`
/// promises of every draw holds of it: it is an in-unit color, black
/// when the bounce budget is zero, exactly the sky gradient of the
/// ray's direction when the scene misses that ray, and otherwise black
/// or an attenuated in-unit color of the struck material.
pub open spec fn spec_pixel_sample(
    c: Vec3,
    pixel: int,
    settings: RenderSettings,
    world: HittableList,
    camera: Camera,
) -> bool {
    exists|ru: int, rv: int|
        #![trigger spec_jitter_u(pixel, ru, settings.image_width as int), spec_jitter_v(pixel, rv, settings.image_width as int, settings.image_height as int)]
        {
            let u = spec_jitter_u(pixel, ru, settings.image_width as int);
            let v = spec_jitter_v(
                pixel,
                rv,
                settings.image_width as int,
                settings.image_height as int,
            );
            let dir = spec_viewport_dir(camera, u, v);
            let probe = world.hit_spec(
                Ray { origin: camera.origin, direction: dir },
                T_EPSILON,
                T_LIMIT,
            );
            &&& 0 <= ru < SCALE as int
            &&& 0 <= rv < SCALE as int
            &&& color_in_unit(c)
            &&& settings.max_depth == 0 ==> c == (Vec3 { x: 0, y: 0, z: 0 })
            &&& (settings.max_depth > 0 && probe is None) ==> c == spec_sky_color(dir)
            &&& settings.max_depth > 0 ==> (probe matches Some(hit) ==> (c == (Vec3 {
                x: 0,
                y: 0,
                z: 0,
            }) || exists|e: Vec3|
                color_in_unit(e) && c == #[trigger] spec_albedo(hit.material).spec_mul(e)))
        }
}

/// A channel-wise sum of `count` possible samples for pixel `pixel`.
pub open spec fn spec_sample_sum(
    sum: Vec3,
    count: int,
    pixel: int,
    settings: RenderSettings,
    world: HittableList,
    camera: Camera,
) -> bool
    decreases count,
{
    if count <= 0 {
        sum == (Vec3 { x: 0, y: 0, z: 0 })
    } else {
        exists|prev: Vec3, c: Vec3|
            #![trigger prev.spec_add(c)]
            {
                &&& spec_sample_sum(prev, count - 1, pixel, settings, world, camera)
                &&& spec_pixel_sample(c, pixel, settings, world, camera)
                &&& sum == prev.spec_add(c)
            }
    }
}

/// The byte a channel sum of one pixel quantizes to: average over the
/// sample count, clamp, gamma-correct, round to a byte.
pub open spec fn spec_channel_byte(sum: int, spp: int) -> int {
    tdiv(spec_sample_channel(sum, spp) * 255 + HALF as int, SCALE as int)
}

/// One correctly rendered pixel: each byte is the quantized,
/// gamma-corrected average of the channel sums of the pixel's samples.
pub open spec fn spec_pixel_bytes(
    b0: u8,
    b1: u8,
    b2: u8,
    pixel: int,
    settings: RenderSettings,
    world: HittableList,
    camera: Camera,
) -> bool {
    exists|sum: Vec3|
        #![trigger spec_sample_sum(sum, settings.samples_per_pixel as int, pixel, settings, world, camera)]
        {
            &&& spec_sample_sum(
                sum,
                settings.samples_per_pixel as int,
                pixel,
                settings,
                world,
                camera,
            )
            &&& b0 as int == spec_channel_byte(sum.x as int, settings.samples_per_pixel as int)
            &&& b1 as int == spec_channel_byte(sum.y as int, settings.samples_per_pixel as int)
            &&& b2 as int == spec_channel_byte(sum.z as int, settings.samples_per_pixel as int)
        }
}

/// Pixel `k` of a rendered byte buffer whose first pixel has absolute
/// flat index `start` carries a correctly rendered pixel.
pub open spec fn spec_rendered_pixel(
    bytes: Seq<u8>,
    k: int,
    start: int,
    settings: RenderSettings,
    world: HittableList,
    camera: Camera,
) -> bool {
    spec_pixel_bytes(
        bytes[3 * k],
        bytes[3 * k + 1],
        bytes[3 * k + 2],
        start + k,
        settings,
        world,
        camera,
    )
}

/// Render `pixel_count` pixels starting at flat index `pixel_start`
/// (row-major, row zero at the top of the image) into interleaved RGB
/// bytes, drawing per-sample jitter from `rng`: pixel `k` of the result
/// is the quantized, gamma-corrected average of `samples_per_pixel`
/// radiance samples through its own jittered viewport coordinates.
pub fn render_image_chunk(
    settings: &RenderSettings,
    world: &HittableList,
    camera: &Camera,
    pixel_start: usize,
    pixel_count: usize,
    rng: &mut rand::rngs::StdRng,
) -> (r: Vec<u8>)
    requires
        render_inputs_ok(*settings, *world, *camera),
        pixel_start + pixel_count <= (settings.image_width as int) * (
        settings.image_height as int),
    ensures
        r@.len() == 3 * pixel_count,
        forall|k: int|
            0 <= k < pixel_count ==> #[trigger] spec_rendered_pixel(
                r@,
                k,
                pixel_start as int,
                *settings,
                *world,
                *camera,
            ),
{
    let mut bytes: Vec<u8> = Vec::new();
    let w = settings.image_width as i64;
    let h = settings.image_height as i64;
    let mut k: usize = 0;
    while k < pixel_count
        invariant
            k <= pixel_count,
            bytes@.len() == 3 * k,
            w == settings.image_width as int,
            h == settings.image_height as int,
            render_inputs_ok(*settings, *world, *camera),
            pixel_start + pixel_count <= w * h,
            forall|k2: int|
                0 <= k2 < k ==> #[trigger] spec_rendered_pixel(
                    bytes@,
                    k2,
                    pixel_start as int,
                    *settings,
                    *world,
                    *camera,
                ),
        decreases pixel_count - k,
    {
        proof {
            assert(((pixel_start + k) as int) < w * h);
            assert(w * h <= PIXEL_COUNT_LIMIT as int);
        }
        let pixel_index = (pixel_start + k) as i64;
        let x = pixel_index % w;
        proof {
            vstd::arithmetic::div_mod::lemma_multiply_divide_lt(pixel_index as int, w as int, h as int);
            assert((w as int) * (h as int) == (h as int) * (w as int)) by (nonlinear_arith);
        }
        let y = h - 1 - pixel_index / w;
        proof {
            assert(x as int == spec_pixel_x(pixel_index as int, w as int));
            assert(y as int == spec_pixel_y(pixel_index as int, w as int, h as int));
        }

        let mut pixel_color = Vec3::new(0, 0, 0);
        let mut s: u32 = 0;
        while s < settings.samples_per_pixel
            invariant
                s <= settings.samples_per_pixel,
                0 <= pixel_color.x <= (s as int) * (SCALE as int),
                0 <= pixel_color.y <= (s as int) * (SCALE as int),
                0 <= pixel_color.z <= (s as int) * (SCALE as int),
                settings.samples_per_pixel >= 1,
                render_inputs_ok(*settings, *world, *camera),
                w == settings.image_width as int,
                h == settings.image_height as int,
                2 <= w,
                2 <= h,
                0 <= x < w,
                0 <= y < h,
                w * h <= PIXEL_COUNT_LIMIT as int,
                x as int == spec_pixel_x(pixel_index as int, w as int),
                y as int == spec_pixel_y(pixel_index as int, w as int, h as int),
                spec_sample_sum(
                    pixel_color,
                    s as int,
                    pixel_index as int,
                    *settings,
                    *world,
                    *camera,
                ),
            decreases settings.samples_per_pixel - s,
        {
            proof {
                lemma_sample_coordinate_bounds(x as int, y as int, w as int, h as int);
            }
            let ru = rand_range(rng, 0, SCALE);
            let u = (x * SCALE + ru) / (w - 1);
            proof {
                assert(0 <= tdiv(x as int * (SCALE as int) + ru as int, w as int - 1) <= 2 * (
                SCALE as int));
                assert(u as int == tdiv(x as int * (SCALE as int) + ru as int, w as int - 1));
            }
            let rv = rand_range(rng, 0, SCALE);
            let v = (y * SCALE + rv) / (h - 1);
            proof {
                assert(0 <= tdiv(y as int * (SCALE as int) + rv as int, h as int - 1) <= 2 * (
                SCALE as int));
                assert(v as int == tdiv(y as int * (SCALE as int) + rv as int, h as int - 1));
            }
            let ray = camera.get_viewport_ray(u, v);
            let sample = ray_color(&ray, world, settings.max_depth, rng);
            proof {
                assert(u as int == spec_jitter_u(
                    pixel_index as int,
                    ru as int,
                    settings.image_width as int,
                ));
                assert(v as int == spec_jitter_v(
                    pixel_index as int,
                    rv as int,
                    settings.image_width as int,
                    settings.image_height as int,
                ));
                assert(ray == (Ray { origin: camera.origin, direction: ray.direction }));
                assert(spec_pixel_sample(
                    sample,
                    pixel_index as int,
                    *settings,
                    *world,
                    *camera,
                ));
                assert((s as int) * (SCALE as int) + (SCALE as int) == ((s as int) + 1) * (
                SCALE as int)) by (nonlinear_arith);
            }
            let ghost prev = pixel_color;
            pixel_color = pixel_color.add(sample);
            proof {
                assert(pixel_color == prev.spec_add(sample));
                assert(spec_sample_sum(
                    pixel_color,
                    s as int + 1,
                    pixel_index as int,
                    *settings,
                    *world,
                    *camera,
                ));
            }
            s = s + 1;
        }
        let ghost sum0 = pixel_color;
        sample_color(&mut pixel_color, settings.samples_per_pixel);
        let ghost bytes_snap = bytes@;
        let b0 = color_to_byte(pixel_color.x);
        let b1 = color_to_byte(pixel_color.y);
        let b2 = color_to_byte(pixel_color.z);
        bytes.push(b0);
        bytes.push(b1);
        bytes.push(b2);
        proof {
            assert(b0 as int == spec_channel_byte(
                sum0.x as int,
                settings.samples_per_pixel as int,
            ));
            assert(b1 as int == spec_channel_byte(
                sum0.y as int,
                settings.samples_per_pixel as int,
            ));
            assert(b2 as int == spec_channel_byte(
                sum0.z as int,
                settings.samples_per_pixel as int,
            ));
            assert(spec_pixel_bytes(
                b0,
                b1,
                b2,
                pixel_index as int,
                *settings,
                *world,
                *camera,
            ));
            assert(bytes@[3 * (k as int)] == b0);
            assert(bytes@[3 * (k as int) + 1] == b1);
            assert(bytes@[3 * (k as int) + 2] == b2);
            assert(pixel_index as int == pixel_start as int + k as int);
            assert(spec_rendered_pixel(
                bytes@,
                k as int,
                pixel_start as int,
                *settings,
                *world,
                *camera,
            ));
            assert forall|k2: int| 0 <= k2 < k implies #[trigger] spec_rendered_pixel(
                bytes@,
                k2,
                pixel_start as int,
                *settings,
                *world,
                *camera,
            ) by {
                assert(bytes@[3 * k2] == bytes_snap[3 * k2]);
                assert(bytes@[3 * k2 + 1] == bytes_snap[3 * k2 + 1]);
                assert(bytes@[3 * k2 + 2] == bytes_snap[3 * k2 + 2]);
                assert(spec_rendered_pixel(
                    bytes_snap,
                    k2,
                    pixel_start as int,
                    *settings,
                    *world,
                    *camera,
                ));
            }
        }
        k = k + 1;
    }
    bytes
}

/// The pixel-to-viewport coordinate quotients stay within the camera's
/// accepted range.
proof fn lemma_sample_coordinate_bounds(x: int, y: int, w: int, h: int)
    requires
        2 <= w,
        2 <= h,
        0 <= x < w,
        0 <= y < h,
        w * h <= PIXEL_COUNT_LIMIT as int,
    ensures
        forall|r: int|
            0 <= r < SCALE as int ==> 0 <= #[trigger] tdiv(x * (SCALE as int) + r, w - 1) <= 2 * (
            SCALE as int),
        forall|r: int|
            0 <= r < SCALE as int ==> 0 <= #[trigger] tdiv(y * (SCALE as int) + r, h - 1) <= 2 * (
            SCALE as int),
        0 <= x * (SCALE as int) <= PIXEL_COUNT_LIMIT as int * (SCALE as int),
        0 <= y * (SCALE as int) <= PIXEL_COUNT_LIMIT as int * (SCALE as int),
    {
    let s = SCALE as int;
    assert(w <= PIXEL_COUNT_LIMIT as int && h <= PIXEL_COUNT_LIMIT as int) by (nonlinear_arith)
        requires w * h <= PIXEL_COUNT_LIMIT as int && 2 <= h && 2 <= w;
    assert(0 <= x * s && x * s <= PIXEL_COUNT_LIMIT as int * s) by (nonlinear_arith)
        requires 0 <= x < w && w <= PIXEL_COUNT_LIMIT as int && s == 65536;
    assert(0 <= y * s && y * s <= PIXEL_COUNT_LIMIT as int * s) by (nonlinear_arith)
        requires 0 <= y < h && h <= PIXEL_COUNT_LIMIT as int && s == 65536;
    assert forall|r: int| 0 <= r < s implies #[trigger] tdiv(x * s + r, w - 1) <= 2 * s && tdiv(
        x * s + r,
        w - 1,
    ) >= 0 by {
        assert(x * s + r < (2 * s + 1) * (w - 1)) by (nonlinear_arith)
            requires 0 <= x <= w - 1 && 2 <= w && 0 <= r < s && s == 65536;
        lemma_div_le(x * s + r, w - 1, 2 * s);
    }
    assert forall|r: int| 0 <= r < s implies #[trigger] tdiv(y * s + r, h - 1) <= 2 * s && tdiv(
        y * s + r,
        h - 1,
    ) >= 0 by {
        assert(y * s + r < (2 * s + 1) * (h - 1)) by (nonlinear_arith)
            requires 0 <= y <= h - 1 && 2 <= h && 0 <= r < s && s == 65536;
        lemma_div_le(y * s + r, h - 1, 2 * s);
    }
}

/// Render the whole image into interleaved RGB bytes, row-major with
/// the top row first: pixel `p`'s three bytes are the quantized,
/// gamma-corrected averages of its samples' channel sums (see
/// `spec_rendered_pixel`). The image is cut into `num_threads`
/// contiguous chunks of whole pixels, and chunk `i` draws from a
/// generator seeded with `seed + i`; a parallel driver that renders the
/// same chunks with the same seeds reproduces the same bytes (the
/// generator is opaque to the contracts, so that reproduction is
/// exercised by tests, not stated here).
pub fn render_image(
    settings: &RenderSettings,
    world: &HittableList,
    camera: &Camera,
    seed: u64,
) -> (r: Vec<u8>)
    requires
        render_inputs_ok(*settings, *world, *camera),
        settings.num_threads >= 1,
    ensures
        r@.len() == 3 * (settings.image_width as int) * (settings.image_height as int),
        forall|p: int|
            0 <= p < (settings.image_width as int) * (settings.image_height as int)
                ==> #[trigger] spec_rendered_pixel(r@, p, 0, *settings, *world, *camera),
{
    let total: usize = (settings.image_width as usize) * (settings.image_height as usize);
    let threads = settings.num_threads;
    let base = total / threads;
    proof {
        assert(((total as int) / (threads as int)) * (threads as int) <= total as int) by {
            vstd::arithmetic::div_mod::lemma_fundamental_div_mod(total as int, threads as int);
            vstd::arithmetic::div_mod::lemma_remainder_lower(total as int, threads as int);
            assert((threads as int) * ((total as int) / (threads as int)) == ((total as int)
                / (threads as int)) * (threads as int)) by (nonlinear_arith);
        }
    }
    let mut bytes: Vec<u8> = Vec::new();
    let mut start: usize = 0;
    let mut ci: usize = 0;
    while ci < threads
        invariant
            ci <= threads,
            threads == settings.num_threads,
            threads >= 1,
            total == (settings.image_width as int) * (settings.image_height as int),
            base == total as int / threads as int,
            (base * threads) as int <= total as int,
            start as int == if ci == threads {
                total as int
            } else {
                ci * base
            },
            start <= total,
            bytes@.len() == 3 * start,
            render_inputs_ok(*settings, *world, *camera),
            forall|p: int|
                0 <= p < start ==> #[trigger] spec_rendered_pixel(
                    bytes@,
                    p,
                    0,
                    *settings,
                    *world,
                    *camera,
                ),
        decreases threads - ci,
    {
        proof {
            assert((ci + 1) * base as int <= threads * base as int) by (nonlinear_arith)
                requires ci + 1 <= threads as int && base as int >= 0;
            assert(threads * base as int == base * threads as int) by (nonlinear_arith);
            assert(ci * base as int <= (ci + 1) * base as int) by (nonlinear_arith)
                requires base as int >= 0 && ci >= 0;
            assert((ci + 1) * base as int == ci * base as int + base as int) by (nonlinear_arith);
        }
        let count = if ci + 1 == threads {
            total - start
        } else {
            base
        };
        let mut chunk_rng = rng_from_seed(seed.wrapping_add(ci as u64));
        let chunk = render_image_chunk(settings, world, camera, start, count, &mut chunk_rng);
        let ghost bytes_snap = bytes@;
        let mut j: usize = 0;
        while j < chunk.len()
            invariant
                j <= chunk@.len(),
                bytes@.len() == 3 * start + j,
                bytes@.len() == bytes_snap.len() + j,
                bytes@ =~= bytes_snap + chunk@.take(j as int),
            decreases chunk@.len() - j,
        {
            bytes.push(chunk[j]);
            proof {
                assert(bytes@ =~= bytes_snap + chunk@.take(j + 1 as int));
            }
            j = j + 1;
        }
        proof {
            assert(chunk@.take(chunk@.len() as int) =~= chunk@);
            assert(bytes@ =~= bytes_snap + chunk@);
            // Earlier pixels keep their bytes; the chunk's pixels land at
            // their absolute indices.
            assert forall|p: int| 0 <= p < start + count implies #[trigger] spec_rendered_pixel(
                bytes@,
                p,
                0,
                *settings,
                *world,
                *camera,
            ) by {
                if p < start {
                    assert(bytes@[3 * p] == bytes_snap[3 * p]);
                    assert(bytes@[3 * p + 1] == bytes_snap[3 * p + 1]);
                    assert(bytes@[3 * p + 2] == bytes_snap[3 * p + 2]);
                    assert(spec_rendered_pixel(bytes_snap, p, 0, *settings, *world, *camera));
                } else {
                    let k = p - start;
                    assert(spec_rendered_pixel(chunk@, k, start as int, *settings, *world, *camera));
                    assert(bytes@[3 * p] == chunk@[3 * k]);
                    assert(bytes@[3 * p + 1] == chunk@[3 * k + 1]);
                    assert(bytes@[3 * p + 2] == chunk@[3 * k + 2]);
                    assert(start as int + k == 0 + p);
                }
            }
        }
        start = start + count;
        ci = ci + 1;
    }
    proof {
        assert(3 * (total as int) == 3 * (settings.image_width as int) * (
        settings.image_height as int)) by (nonlinear_arith)
            requires total as int == (settings.image_width as int) * (settings.image_height as int);
    }
    bytes
}

/// A direction long enough to normalize gets a sky color whose blue
/// channel is exactly one: the gradient blends white and sky blue, and
/// both have a full blue channel.
pub proof fn lemma_sky_blue_full(dir: Vec3)
    requires
        dir.spec_length_squared() >= 1,
    ensures
        spec_sky_color(dir).z == SCALE,
{
    let unit = dir.spec_normalized();
    let t = spec_clamp(spec_fmul(HALF as int, unit.y + SCALE as int), 0, SCALE as int);
    lemma_tdiv_cancel(SCALE as int - t, SCALE as int);
    lemma_tdiv_cancel(t, SCALE as int);
    assert((SCALE as int) * (SCALE as int - t) == (SCALE as int - t) * (SCALE as int))
        by (nonlinear_arith);
    assert((SCALE as int) * t == t * (SCALE as int)) by (nonlinear_arith);
}

/// With an empty scene and a positive bounce budget, every sample of a
/// camera whose directions always normalize is the sky gradient of its
/// own jittered direction, so its blue channel is full.
proof fn lemma_empty_scene_sample_z(
    c: Vec3,
    pixel: int,
    settings: RenderSettings,
    world: HittableList,
    camera: Camera,
)
    requires
        spec_pixel_sample(c, pixel, settings, world, camera),
        world.objects@.len() == 0,
        settings.max_depth >= 1,
        forall|u: int, v: int| #[trigger] spec_viewport_dir(camera, u, v).spec_length_squared()
            >= 1,
    ensures
        c.z == SCALE,
{
    let w = settings.image_width as int;
    let h = settings.image_height as int;
    let (ru, rv) = choose|ru: int, rv: int|
        #![trigger spec_jitter_u(pixel, ru, w), spec_jitter_v(pixel, rv, w, h)]
        {
            let u = spec_jitter_u(pixel, ru, w);
            let v = spec_jitter_v(pixel, rv, w, h);
            let dir = spec_viewport_dir(camera, u, v);
            let probe = world.hit_spec(
                Ray { origin: camera.origin, direction: dir },
                T_EPSILON,
                T_LIMIT,
            );
            &&& 0 <= ru < SCALE as int
            &&& 0 <= rv < SCALE as int
            &&& color_in_unit(c)
            &&& settings.max_depth == 0 ==> c == (Vec3 { x: 0, y: 0, z: 0 })
            &&& (settings.max_depth > 0 && probe is None) ==> c == spec_sky_color(dir)
            &&& settings.max_depth > 0 ==> (probe matches Some(hit) ==> (c == (Vec3 {
                x: 0,
                y: 0,
                z: 0,
            }) || exists|e: Vec3|
                color_in_unit(e) && c == #[trigger] spec_albedo(hit.material).spec_mul(e)))
        };
    let dir = spec_viewport_dir(camera, spec_jitter_u(pixel, ru, w), spec_jitter_v(pixel, rv, w, h));
    assert(world.hit_spec(Ray { origin: camera.origin, direction: dir }, T_EPSILON, T_LIMIT)
        is None);
    lemma_sky_blue_full(dir);
}

/// With an empty scene, the blue channel sum over `count` samples is
/// exactly `count` (every sample's blue channel is full).
proof fn lemma_empty_scene_sum_z(
    sum: Vec3,
    count: int,
    pixel: int,
    settings: RenderSettings,
    world: HittableList,
    camera: Camera,
)
    requires
        spec_sample_sum(sum, count, pixel, settings, world, camera),
        0 <= count <= u32::MAX,
        world.objects@.len() == 0,
        settings.max_depth >= 1,
        forall|u: int, v: int| #[trigger] spec_viewport_dir(camera, u, v).spec_length_squared()
            >= 1,
    ensures
        sum.z == count * (SCALE as int),
    decreases count,
{
    if count <= 0 {
        assert(0 * (SCALE as int) == 0) by (nonlinear_arith);
    } else {
        let (prev, c) = choose|prev: Vec3, c: Vec3|
            #![trigger prev.spec_add(c)]
            {
                &&& spec_sample_sum(prev, count - 1, pixel, settings, world, camera)
                &&& spec_pixel_sample(c, pixel, settings, world, camera)
                &&& sum == prev.spec_add(c)
            };
        lemma_empty_scene_sum_z(prev, count - 1, pixel, settings, world, camera);
        lemma_empty_scene_sample_z(c, pixel, settings, world, camera);
        assert((count - 1) * (SCALE as int) + SCALE as int == count * (SCALE as int))
            by (nonlinear_arith);
        assert(0 <= (count - 1) * (SCALE as int) <= 0x1000000000000) by (nonlinear_arith)
            requires 0 <= count - 1 <= u32::MAX as int;
    }
}

/// A deterministic consequence of the pixel contract that no random
/// draw can disturb: when the scene is empty, every ray meets the sky,
/// whose blue channel is exactly one, so every rendered pixel's blue
/// byte is 255 — for any camera (like the default one) whose viewport
/// directions are always long enough to normalize.
pub proof fn lemma_empty_scene_blue_byte(
    bytes: Seq<u8>,
    k: int,
    start: int,
    settings: RenderSettings,
    world: HittableList,
    camera: Camera,
)
    requires
        spec_rendered_pixel(bytes, k, start, settings, world, camera),
        world.objects@.len() == 0,
        settings.max_depth >= 1,
        settings.samples_per_pixel >= 1,
        forall|u: int, v: int| #[trigger] spec_viewport_dir(camera, u, v).spec_length_squared()
            >= 1,
    ensures
        bytes[3 * k + 2] as int == 255,
{
    let spp = settings.samples_per_pixel as int;
    let b0 = bytes[3 * k];
    let b1 = bytes[3 * k + 1];
    let b2 = bytes[3 * k + 2];
    let pixel = start + k;
    let sum = choose|sum: Vec3|
        #![trigger spec_sample_sum(sum, settings.samples_per_pixel as int, pixel, settings, world, camera)]
        {
            &&& spec_sample_sum(
                sum,
                settings.samples_per_pixel as int,
                pixel,
                settings,
                world,
                camera,
            )
            &&& b0 as int == spec_channel_byte(sum.x as int, settings.samples_per_pixel as int)
            &&& b1 as int == spec_channel_byte(sum.y as int, settings.samples_per_pixel as int)
            &&& b2 as int == spec_channel_byte(sum.z as int, settings.samples_per_pixel as int)
        };
    lemma_empty_scene_sum_z(sum, spp, pixel, settings, world, camera);
    // The average of a full blue channel is full, it clamps to the cap,
    // and the cap's gamma root quantizes to the top byte.
    lemma_tdiv_cancel(SCALE as int, spp);
    assert((SCALE as int) * spp == spp * (SCALE as int)) by (nonlinear_arith);
    assert(tdiv(spp * (SCALE as int), spp) == SCALE as int);
    assert(spec_clamp(SCALE as int, 0, CLAMP_MAX as int) == CLAMP_MAX as int);
    assert(spec_fsqrt(CLAMP_MAX as int) == 65502) by {
        assert((65502 as int) * (65502 as int) == 4290512004) by (nonlinear_arith);
        assert((65503 as int) * (65503 as int) == 4290643009) by (nonlinear_arith);
        assert((CLAMP_MAX as int) * (SCALE as int) == 4290641920) by (nonlinear_arith);
        lemma_sqrt_floor_unique(((CLAMP_MAX as int) * (SCALE as int)) as nat, 65502);
    }
    assert(tdiv(65502 * 255 + HALF as int, SCALE as int) == 255);
}

/// Filtering a color channel through a sequence of per-bounce albedos:
/// each bounce multiplies by its albedo.
pub open spec fn attenuated_luminance(albedos: Seq<int>, l: int) -> int
    decreases albedos.len(),
{
    if albedos.len() == 0 {
        l
    } else {
        spec_fmul(albedos.last(), attenuated_luminance(albedos.drop_last(), l))
    }
}

/// Energy is never created: a channel filtered through any sequence of
/// per-bounce albedos in `[0, 1]` never exceeds the incoming channel,
/// and never exceeds the product of the albedos themselves (the same
/// filter applied to a full-strength channel).
pub proof fn lemma_attenuation_never_creates(albedos: Seq<int>, l: int)
    requires
        0 <= l <= SCALE as int,
        forall|i: int| 0 <= i < albedos.len() ==> 0 <= #[trigger] albedos[i] <= SCALE as int,
    ensures
        0 <= attenuated_luminance(albedos, l) <= l,
        attenuated_luminance(albedos, l) <= attenuated_luminance(albedos, SCALE as int),
    decreases albedos.len(),
{
    if albedos.len() == 0 {
    } else {
        let prefix = albedos.drop_last();
        assert(forall|i: int| 0 <= i < prefix.len() ==> prefix[i] == albedos[i]);
        lemma_attenuation_never_creates(prefix, l);
        lemma_attenuation_never_creates(prefix, SCALE as int);
        let a = albedos.last();
        assert(a == albedos[albedos.len() - 1]);
        lemma_fmul_attenuates(a, attenuated_luminance(prefix, l));
        lemma_fmul_attenuates(a, attenuated_luminance(prefix, SCALE as int));
        lemma_fmul_mono(a, attenuated_luminance(prefix, l), attenuated_luminance(prefix, SCALE as int));
    }
}

} // verus!
