use pathtracer::camera::Camera;
use pathtracer::hittable::{Hittable, HittableList, Sphere, XYRect};
use pathtracer::material::{random_in_unit_sphere, Material};
use pathtracer::ray::Ray;
use pathtracer::render::{ray_color, render};
use pathtracer::rng::rng_from_seed;
use pathtracer::vec3::Vec3;

const S: i64 = 65536;

fn emissive_sphere_scene() -> HittableList {
    HittableList {
        list: vec![Hittable::Sphere(Sphere {
            center: Vec3::new(0, 0, -5 * S),
            radius: S,
            material: Material::Lambertian { attenuation: Vec3::new(S / 2, S / 2, S / 2) },
            emit: Vec3::new(S, S, S),
        })],
    }
}

// An emissive hit returns its emission unchanged, whatever the material.
#[test]
fn emissive_hit_returns_emission() {
    let world = emissive_sphere_scene();
    let mut rng = rng_from_seed(1);
    let r = Ray::new(Vec3::zero(), Vec3::new(0, 0, -S));
    assert_eq!(ray_color(r, &world, 1, &mut rng), Vec3::new(S, S, S));
    assert_eq!(ray_color(r, &world, 50, &mut rng), Vec3::new(S, S, S));
}

// Depth zero is black regardless of the scene.
#[test]
fn depth_zero_is_black() {
    let world = emissive_sphere_scene();
    let mut rng = rng_from_seed(1);
    let r = Ray::new(Vec3::zero(), Vec3::new(0, 0, -S));
    assert_eq!(ray_color(r, &world, 0, &mut rng), Vec3::zero());
    assert_eq!(ray_color(r, &world, -3, &mut rng), Vec3::zero());
}

// No hit is black: the background is pure black.
#[test]
fn miss_is_black() {
    let world = emissive_sphere_scene();
    let mut rng = rng_from_seed(1);
    let r = Ray::new(Vec3::zero(), Vec3::new(0, 0, S));
    assert_eq!(ray_color(r, &world, 50, &mut rng), Vec3::zero());
}

#[test]
fn sampled_point_lies_in_unit_ball() {
    let mut rng = rng_from_seed(99);
    for _ in 0..200 {
        let p = random_in_unit_sphere(&mut rng);
        assert!(p.length_squared() < S);
    }
}

// A fuzz-free metal reflects exactly by the reflection law.
#[test]
fn metal_mirror_reflects_exactly() {
    let m = Material::Metal { attenuation: Vec3::new(S / 2, S / 2, S / 2), fuzziness: 0 };
    let mut rng = rng_from_seed(5);
    // Incoming at 45 degrees onto the plane y = 0.
    let r = Ray::new(Vec3::new(-S, S, 0), Vec3::new(S, -S, 0));
    let normal = Vec3::new(0, S, 0);
    let point = Vec3::zero();
    let (scattered, attenuation, bounce) = m.scatter(&r, normal, point, &mut rng);
    // unit(dir) = (46341, -46341, 0); its reflection flips the y component.
    assert_eq!(scattered.dir, Vec3::new(46341, 46341, 0));
    assert_eq!(scattered.orig, point);
    assert_eq!(attenuation, Vec3::new(S / 2, S / 2, S / 2));
    assert!(bounce);
    assert!(scattered.dir.dot(normal) > 0);
}

// A metal ray that would re-enter the surface is absorbed.
#[test]
fn metal_grazing_ray_is_absorbed() {
    let m = Material::Metal { attenuation: Vec3::new(S / 2, S / 2, S / 2), fuzziness: 0 };
    let mut rng = rng_from_seed(5);
    // Incoming parallel to the surface: the reflection stays in the plane,
    // so the scattered direction does not leave along the normal.
    let r = Ray::new(Vec3::new(-S, 0, 0), Vec3::new(S, 0, 0));
    let normal = Vec3::new(0, S, 0);
    let (scattered, _attenuation, bounce) = m.scatter(&r, normal, Vec3::zero(), &mut rng);
    assert!(!bounce);
    assert!(scattered.dir.dot(normal) <= 0);
}

#[test]
fn lambertian_always_bounces() {
    let m = Material::Lambertian { attenuation: Vec3::new(S / 4, S / 4, S / 4) };
    let mut rng = rng_from_seed(5);
    let r = Ray::new(Vec3::new(-S, S, 0), Vec3::new(S, -S, 0));
    let point = Vec3::new(S, 2 * S, 3 * S);
    let (scattered, attenuation, bounce) = m.scatter(&r, Vec3::new(0, S, 0), point, &mut rng);
    assert!(bounce);
    assert_eq!(attenuation, Vec3::new(S / 4, S / 4, S / 4));
    assert_eq!(scattered.orig, point);
}

fn one_sphere_one_light() -> HittableList {
    HittableList {
        list: vec![
            Hittable::Sphere(Sphere {
                center: Vec3::new(0, 0, -S),
                radius: S / 2,
                material: Material::Lambertian { attenuation: Vec3::new(S, S / 3, S / 3) },
                emit: Vec3::zero(),
            }),
            Hittable::XYRect(XYRect {
                x0: -1000 * S,
                x1: 1000 * S,
                y0: -1000 * S,
                y1: 1000 * S,
                k: -50 * S,
                material: Material::Lambertian { attenuation: Vec3::new(S / 2, S / 2, S / 2) },
                emit: Vec3::new(S, S, S),
            }),
        ],
    }
}

// A fixed seed reproduces the frame pixel for pixel.
#[test]
fn seeded_render_is_reproducible() {
    let world = one_sphere_one_light();
    let camera = Camera::new(Vec3::new(0, S, S));
    let mut rng_a = rng_from_seed(42);
    let mut rng_b = rng_from_seed(42);
    let frame_a = render(&world, &camera, 8, 6, 2, 5, &mut rng_a);
    let frame_b = render(&world, &camera, 8, 6, 2, 5, &mut rng_b);
    assert_eq!(frame_a, frame_b);

    let mut rng_c = rng_from_seed(43);
    let frame_c = render(&world, &camera, 8, 6, 2, 5, &mut rng_c);
    assert_eq!(frame_c.len(), 6);
    assert!(frame_c.iter().all(|row| row.len() == 8));
}

// With one sample and depth one, every pixel either misses everything or
// hits the sphere (black) or faces the light (full emission).
#[test]
fn one_sample_depth_one_frame() {
    let world = one_sphere_one_light();
    let camera = Camera::new(Vec3::new(0, S, S));
    let mut rng = rng_from_seed(11);
    let frame = render(&world, &camera, 20, 12, 1, 1, &mut rng);
    assert_eq!(frame.len(), 12);
    let mut blacks: usize = 0;
    let mut lights: usize = 0;
    for row in &frame {
        assert_eq!(row.len(), 20);
        for px in row {
            match px {
                (0, 0, 0) => blacks += 1,
                (255, 255, 255) => lights += 1,
                other => panic!("unexpected pixel {:?}", other),
            }
        }
    }
    assert!(blacks > 0, "no pixel hit the sphere");
    assert!(lights > 0, "no pixel faced the light");
}
