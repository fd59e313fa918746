//! The integrator (radiance along a ray) and the frame renderer
//! (per-pixel multi-sample evaluation into a pixel buffer).

use vstd::prelude::*;
use crate::camera::{get_ray_dir_s, Camera};
use crate::fixed::{
    fx_add, fx_add_s, fx_div, fx_div_s, fx_mul, fx_mul_s, lemma_fx_mul_bounds,
    lemma_fx_mul_nonneg, tdiv,
};
use crate::hittable::{emit_of, lemma_list_hit_member, list_hit_s, material_of, HittableList, Hittable};
use crate::material::attenuation_s;
use crate::ray::Ray;
use crate::rng::random_unit;
use crate::vec3::{vadd_s, vmul_s, vzero_s, Vec3};

verus! {

/// Raw shadow epsilon: hits closer than this are ignored (about 0.001).
pub const T_MIN_RAW: i64 = 66;

/// `255.999` in raw units (`255.999 * 65536`, rounded down): scales an
/// averaged channel in [0, 1] to [0, 256).
pub const COLOR_SCALE_RAW: i64 = 16777150;

pub open spec fn vec_nonneg(v: Vec3) -> bool {
    0 <= v.x && 0 <= v.y && 0 <= v.z
}

pub open spec fn vec_le(v: Vec3, m: i64) -> bool {
    v.x <= m && v.y <= m && v.z <= m
}

/// Every member's emission and attenuation is componentwise nonnegative.
pub open spec fn scene_nonneg(objs: Seq<Hittable>) -> bool {
    forall|k: int|
        0 <= k < objs.len() ==> vec_nonneg(emit_of(#[trigger] objs[k]))
            && vec_nonneg(attenuation_s(material_of(objs[k])))
}

/// Emissions lie in [0, m] and attenuations in [0, 1] componentwise.
pub open spec fn scene_bounded_by(objs: Seq<Hittable>, m: i64) -> bool {
    &&& 0 <= m
    &&& forall|k: int|
        0 <= k < objs.len() ==> vec_nonneg(emit_of(#[trigger] objs[k]))
            && vec_le(emit_of(objs[k]), m) && vec_nonneg(attenuation_s(material_of(objs[k])))
            && vec_le(attenuation_s(material_of(objs[k])), 65536)
}

/// Everything the integrator promises of its result: black on a spent
/// budget or a miss, the emission itself on an emissive hit, attenuation
/// times some further radiance otherwise; componentwise nonnegative for a
/// nonnegative scene, and bounded by the scene's largest emission when the
/// attenuations do not amplify.
pub open spec fn ray_color_post(objs: Seq<Hittable>, r: Ray, depth: i32, c: Vec3) -> bool {
    &&& (depth <= 0 ==> c == vzero_s())
    &&& (depth > 0 ==> (match list_hit_s(objs, r, T_MIN_RAW, i64::MAX) {
        None => c == vzero_s(),
        Some(h) => {
            &&& (h.emit != vzero_s() ==> c == h.emit)
            &&& (h.emit == vzero_s() ==> c == vzero_s()
                || exists|g: Vec3| c == #[trigger] vmul_s(attenuation_s(h.mat), g))
        },
    }))
    &&& (scene_nonneg(objs) ==> vec_nonneg(c))
    &&& (forall|m: i64| #[trigger] scene_bounded_by(objs, m) ==> vec_le(c, m))
}

/// Radiance arriving along `r`: black when the recursion budget is spent or
/// nothing is hit; an emissive hit returns its emission unconditionally; a
/// non-emissive hit scatters and attenuates (or absorbs the path).
#[verifier::rlimit(50)]
pub fn ray_color(r: Ray, world: &HittableList, depth: i32, rng: &mut rand::rngs::StdRng) -> (c: Vec3)
    ensures
        ray_color_post(world.list@, r, depth, c),
    decreases depth,
{
    let ghost objs = world.list@;
    if depth <= 0 {
        return Vec3::zero();
    }

    match world.hit(&r, T_MIN_RAW, i64::MAX) {
        None => Vec3::zero(),
        Some(hit_record) => {
            proof {
                lemma_list_hit_member(objs, r, T_MIN_RAW, i64::MAX, hit_record);
            }
            let ghost k = choose|k: int|
                0 <= k < objs.len() && hit_record.emit == emit_of(#[trigger] objs[k])
                    && hit_record.mat == material_of(objs[k]);
            if hit_record.emit != Vec3::zero() {
                proof {
                    if scene_nonneg(objs) {
                        assert(vec_nonneg(emit_of(objs[k])));
                    }
                    assert forall|m: i64| #[trigger] scene_bounded_by(objs, m)
                        implies vec_le(hit_record.emit, m) by {
                        assert(vec_le(emit_of(objs[k]), m));
                    }
                }
                return hit_record.emit;
            }
            let (target, attenuation, bounce) =
                hit_record.mat.scatter(&r, hit_record.normal, hit_record.point, rng);
            if bounce {
                let bounced = ray_color(target, world, depth - 1, rng);
                let out = attenuation.mul(bounced);
                proof {
                    assert(out == vmul_s(attenuation_s(hit_record.mat), bounced));
                    let att = attenuation_s(material_of(objs[k]));
                    if scene_nonneg(objs) {
                        assert(vec_nonneg(att) && vec_nonneg(bounced));
                        lemma_fx_mul_nonneg(att.x, bounced.x);
                        lemma_fx_mul_nonneg(att.y, bounced.y);
                        lemma_fx_mul_nonneg(att.z, bounced.z);
                    }
                    assert forall|m: i64| #[trigger] scene_bounded_by(objs, m)
                        implies vec_le(out, m) by {
                        assert(scene_nonneg(objs));
                        assert(vec_nonneg(att) && vec_le(att, 65536));
                        assert(vec_nonneg(bounced) && vec_le(bounced, m));
                        lemma_fx_mul_bounds(att.x, bounced.x, m);
                        lemma_fx_mul_bounds(att.y, bounced.y, m);
                        lemma_fx_mul_bounds(att.z, bounced.z, m);
                    }
                }
                out
            } else {
                Vec3::zero()
            }
        },
    }
}

/// An accumulated channel sum mapped to an output channel:
/// `trunc(255.999 * sum / samples)` clamped to [0, 255].
pub open spec fn channel_s(sum: i64, samples: u32) -> u8 {
    let v = fx_div_s(fx_mul_s(sum, COLOR_SCALE_RAW), ((samples as int) * 65536) as i64);
    let whole = tdiv(v as int, 65536);
    if whole < 0 {
        0
    } else if whole > 255 {
        255
    } else {
        whole as u8
    }
}

pub fn to_channel(sum: i64, samples: u32) -> (ch: u8)
    ensures
        ch == channel_s(sum, samples),
{
    let divisor: i64 = (samples as i64) * 65536;
    let v = fx_div(fx_mul(sum, COLOR_SCALE_RAW), divisor);
    if v <= 0 {
        0
    } else {
        let q: u64 = (v as u64) / 65536;
        if q > 255 {
            255
        } else {
            q as u8
        }
    }
}

/// A pixel index jittered into a normalized viewport coordinate:
/// `(idx + jitter) / (count - 1)`, all in raw units.
pub open spec fn viewport_coord_s(idx: int, jitter: i64, count: int) -> i64 {
    fx_div_s(fx_add_s((idx * 65536) as i64, jitter), ((count - 1) * 65536) as i64)
}

/// The camera ray for the sample of pixel column `i`, image row `j`
/// (`j` counted from the image bottom), under the given jitters.
pub open spec fn sample_ray_s(
    cam: Camera,
    i: int,
    j: int,
    ju: i64,
    jv: i64,
    width: int,
    height: int,
) -> Ray {
    Ray {
        orig: cam.origin,
        dir: get_ray_dir_s(
            cam,
            viewport_coord_s(i, ju, width),
            viewport_coord_s(j, jv, height),
        ),
    }
}

/// The componentwise sum of a sequence of colors, folded left to right.
pub open spec fn vsum_s(cols: Seq<Vec3>) -> Vec3
    decreases cols.len(),
{
    if cols.len() == 0 {
        vzero_s()
    } else {
        vadd_s(vsum_s(cols.drop_last()), cols.last())
    }
}

/// One finished pixel, written out by `channel_s` per channel.
pub open spec fn pixel_channels_s(sum: Vec3, samples: u32) -> (u8, u8, u8) {
    (channel_s(sum.x, samples), channel_s(sum.y, samples), channel_s(sum.z, samples))
}

/// The pixel at column `i` of bottom-up row `j` is the channel map of the
/// sum of `spp` sample colors, each the integrator's answer for a camera
/// ray jittered within the pixel.
pub open spec fn pixel_samples_ok(
    objs: Seq<Hittable>,
    cam: Camera,
    width: int,
    height: int,
    spp: u32,
    depth: i32,
    j: int,
    i: int,
    cols: Seq<Vec3>,
    jus: Seq<i64>,
    jvs: Seq<i64>,
    px: (u8, u8, u8),
) -> bool {
    &&& cols.len() == spp
    &&& jus.len() == spp
    &&& jvs.len() == spp
    &&& (forall|s: int|
        0 <= s < spp ==> {
            &&& 0 <= #[trigger] jus[s] < 65536
            &&& 0 <= jvs[s] < 65536
            &&& ray_color_post(objs, sample_ray_s(cam, i, j, jus[s], jvs[s], width, height), depth, cols[s])
        })
    &&& px == pixel_channels_s(vsum_s(cols), spp)
}

pub open spec fn pixel_ok(
    objs: Seq<Hittable>,
    cam: Camera,
    width: int,
    height: int,
    spp: u32,
    depth: i32,
    j: int,
    i: int,
    px: (u8, u8, u8),
) -> bool {
    exists|cols: Seq<Vec3>, jus: Seq<i64>, jvs: Seq<i64>|
        #[trigger] pixel_samples_ok(objs, cam, width, height, spp, depth, j, i, cols, jus, jvs, px)
}

/// Renders `image_height` rows of `image_width` pixels, top row first: the
/// row at buffer index `jj` is image row `image_height - 1 - jj`. Each
/// pixel averages `samples_per_pixel` jittered camera rays evaluated to
/// depth `max_depth`. (The output has exactly `image_height` rows and each
/// channel is clamped to the valid [0, 255]; sampling normalizes by
/// `width - 1` and `height - 1`, so both must be at least 2.)
pub fn render(
    world: &HittableList,
    camera: &Camera,
    image_width: usize,
    image_height: usize,
    samples_per_pixel: u32,
    max_depth: i32,
    rng: &mut rand::rngs::StdRng,
) -> (pixels: Vec<Vec<(u8, u8, u8)>>)
    requires
        2 <= image_width <= 65536,
        2 <= image_height <= 65536,
        1 <= samples_per_pixel,
    ensures
        pixels@.len() == image_height,
        forall|j: int| 0 <= j < pixels@.len() ==> (#[trigger] pixels@[j])@.len() == image_width,
        forall|jj: int, i: int|
            0 <= jj < image_height && 0 <= i < image_width ==> pixel_ok(
                world.list@,
                *camera,
                image_width as int,
                image_height as int,
                samples_per_pixel,
                max_depth,
                image_height - 1 - jj,
                i,
                #[trigger] pixels@[jj]@[i],
            ),
{
    let ghost objs = world.list@;
    let ghost cam = *camera;
    let mut pixels: Vec<Vec<(u8, u8, u8)>> = Vec::new();
    let mut j: usize = image_height;
    while j > 0
        invariant
            j <= image_height,
            2 <= image_width <= 65536,
            2 <= image_height <= 65536,
            1 <= samples_per_pixel,
            objs == world.list@,
            cam == *camera,
            pixels@.len() == image_height - j,
            forall|jj: int| 0 <= jj < pixels@.len() ==> (#[trigger] pixels@[jj])@.len() == image_width,
            forall|jj: int, i: int|
                0 <= jj < pixels@.len() && 0 <= i < image_width ==> pixel_ok(
                    objs,
                    cam,
                    image_width as int,
                    image_height as int,
                    samples_per_pixel,
                    max_depth,
                    image_height - 1 - jj,
                    i,
                    #[trigger] pixels@[jj]@[i],
                ),
        decreases j,
    {
        j = j - 1;
        let mut row: Vec<(u8, u8, u8)> = Vec::new();
        let mut i: usize = 0;
        while i < image_width
            invariant
                i <= image_width,
                2 <= image_width <= 65536,
                2 <= image_height <= 65536,
                1 <= samples_per_pixel,
                j < image_height,
                objs == world.list@,
                cam == *camera,
                row@.len() == i,
                forall|ii: int|
                    0 <= ii < i ==> pixel_ok(
                        objs,
                        cam,
                        image_width as int,
                        image_height as int,
                        samples_per_pixel,
                        max_depth,
                        j as int,
                        ii,
                        #[trigger] row@[ii],
                    ),
            decreases image_width - i,
        {
            let mut pixel_color = Vec3::zero();
            let ghost mut cols: Seq<Vec3> = Seq::empty();
            let ghost mut jus: Seq<i64> = Seq::empty();
            let ghost mut jvs: Seq<i64> = Seq::empty();
            let mut s: u32 = 0;
            while s < samples_per_pixel
                invariant
                    s <= samples_per_pixel,
                    i < image_width <= 65536,
                    j < image_height <= 65536,
                    2 <= image_width,
                    2 <= image_height,
                    objs == world.list@,
                    cam == *camera,
                    cols.len() == s,
                    jus.len() == s,
                    jvs.len() == s,
                    pixel_color == vsum_s(cols),
                    forall|t: int|
                        0 <= t < s ==> {
                            &&& 0 <= #[trigger] jus[t] < 65536
                            &&& 0 <= jvs[t] < 65536
                            &&& ray_color_post(
                                objs,
                                sample_ray_s(cam, i as int, j as int, jus[t], jvs[t], image_width as int, image_height as int),
                                max_depth,
                                cols[t],
                            )
                        },
                decreases samples_per_pixel - s,
            {
                let ju = random_unit(rng);
                let jv = random_unit(rng);
                let u = fx_div(fx_add((i as i64) * 65536, ju), ((image_width - 1) as i64) * 65536);
                let v = fx_div(fx_add((j as i64) * 65536, jv), ((image_height - 1) as i64) * 65536);
                let r = camera.get_ray(u, v);
                let sample = ray_color(r, world, max_depth, rng);
                pixel_color = pixel_color.add(sample);
                proof {
                    assert(u == viewport_coord_s(i as int, ju, image_width as int));
                    assert(v == viewport_coord_s(j as int, jv, image_height as int));
                    assert(r == sample_ray_s(cam, i as int, j as int, ju, jv, image_width as int, image_height as int));
                    let ghost old_cols = cols;
                    cols = cols.push(sample);
                    jus = jus.push(ju);
                    jvs = jvs.push(jv);
                    assert(cols.drop_last() =~= old_cols);
                    assert(cols.last() == sample);
                }
                s = s + 1;
            }
            let px = (
                to_channel(pixel_color.x, samples_per_pixel),
                to_channel(pixel_color.y, samples_per_pixel),
                to_channel(pixel_color.z, samples_per_pixel),
            );
            proof {
                assert(pixel_samples_ok(
                    objs,
                    cam,
                    image_width as int,
                    image_height as int,
                    samples_per_pixel,
                    max_depth,
                    j as int,
                    i as int,
                    cols,
                    jus,
                    jvs,
                    px,
                ));
            }
            row.push(px);
            i = i + 1;
        }
        pixels.push(row);
    }
    pixels
}

} // verus!
