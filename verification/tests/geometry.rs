use pathtracer::hittable::{Hittable, HittableList, Sphere, XYRect, XZRect};
use pathtracer::material::Material;
use pathtracer::ray::Ray;
use pathtracer::vec3::Vec3;

const S: i64 = 65536;

fn plain_gray() -> Material {
    Material::Lambertian { attenuation: Vec3::new(S / 2, S / 2, S / 2) }
}

// A ray aimed straight at a sphere's center hits at distance minus radius,
// with a unit normal pointing back along the ray.
#[test]
fn sphere_head_on_hit() {
    let s = Sphere {
        center: Vec3::new(0, 0, -5 * S),
        radius: S,
        material: plain_gray(),
        emit: Vec3::zero(),
    };
    let r = Ray::new(Vec3::zero(), Vec3::new(0, 0, -S));
    let rec = s.hit(&r, 66, i64::MAX).expect("head-on ray must hit");
    assert_eq!(rec.t, 4 * S); // distance 5 minus radius 1
    assert_eq!(rec.point, Vec3::new(0, 0, -4 * S));
    assert_eq!(rec.normal, Vec3::new(0, 0, S));
    assert_eq!(rec.normal.length(), S);
    assert!(rec.normal.dot(r.dir) < 0);
}

#[test]
fn sphere_far_root_from_inside() {
    let s = Sphere {
        center: Vec3::new(0, 0, -5 * S),
        radius: S,
        material: plain_gray(),
        emit: Vec3::zero(),
    };
    // Origin inside the sphere: the near root is behind t_min.
    let r = Ray::new(Vec3::new(0, 0, -5 * S), Vec3::new(0, 0, -S));
    let rec = s.hit(&r, 66, i64::MAX).expect("must exit through the far side");
    assert_eq!(rec.t, S);
}

// A perpendicular offset larger than the radius misses.
#[test]
fn sphere_offset_miss() {
    let s = Sphere {
        center: Vec3::new(3 * S, 0, -5 * S),
        radius: S,
        material: plain_gray(),
        emit: Vec3::zero(),
    };
    let r = Ray::new(Vec3::zero(), Vec3::new(0, 0, -S));
    assert!(s.hit(&r, 66, i64::MAX).is_none());
    // Just grazing (offset == radius) is tangency, also a miss.
    let s2 = Sphere {
        center: Vec3::new(S, 0, -5 * S),
        radius: S,
        material: plain_gray(),
        emit: Vec3::zero(),
    };
    assert!(s2.hit(&r, 66, i64::MAX).is_none());
}

#[test]
fn sphere_respects_t_window() {
    let s = Sphere {
        center: Vec3::new(0, 0, -5 * S),
        radius: S,
        material: plain_gray(),
        emit: Vec3::zero(),
    };
    let r = Ray::new(Vec3::zero(), Vec3::new(0, 0, -S));
    // Window past both roots (4 and 6): no hit.
    assert!(s.hit(&r, 7 * S, i64::MAX).is_none());
    // Window that excludes the near root only: the far root is returned.
    let rec = s.hit(&r, 5 * S, i64::MAX).expect("far root in window");
    assert_eq!(rec.t, 6 * S);
}

// A rectangle in the z = -5 plane straight ahead: hit at t = 5.
#[test]
fn rect_head_on_hit() {
    let rc = XYRect {
        x0: -S,
        x1: S,
        y0: -S,
        y1: S,
        k: -5 * S,
        material: plain_gray(),
        emit: Vec3::zero(),
    };
    let r = Ray::new(Vec3::zero(), Vec3::new(0, 0, -S));
    let rec = rc.hit(&r, 66, i64::MAX).expect("must hit the plane patch");
    assert_eq!(rec.t, 5 * S);
    assert_eq!(rec.point, Vec3::new(0, 0, -5 * S));
    assert_eq!(rec.normal, Vec3::new(0, 0, S));
}

// The same ray against an XZ rectangle (plane y = -5) runs parallel to the
// plane: the division by the zero direction component saturates and the
// range test rejects it.
#[test]
fn rect_parallel_ray_misses() {
    let rc = XZRect {
        x0: -S,
        x1: S,
        z0: -S,
        z1: S,
        k: -5 * S,
        material: plain_gray(),
        emit: Vec3::zero(),
    };
    let r = Ray::new(Vec3::zero(), Vec3::new(0, 0, -S));
    assert!(rc.hit(&r, 66, i64::MAX).is_none());
}

#[test]
fn rect_out_of_patch_misses() {
    let rc = XYRect {
        x0: -S,
        x1: S,
        y0: -S,
        y1: S,
        k: -5 * S,
        material: plain_gray(),
        emit: Vec3::zero(),
    };
    // Aim past the patch in x: point at t=5 is (-10, 0, -5).
    let r = Ray::new(Vec3::zero(), Vec3::new(-2 * S, 0, -S));
    assert!(rc.hit(&r, 66, i64::MAX).is_none());
}

// The aggregate returns the nearest member hit, in either member order.
#[test]
fn scene_returns_nearest_hit() {
    let far = Sphere {
        center: Vec3::new(0, 0, -5 * S),
        radius: S,
        material: plain_gray(),
        emit: Vec3::zero(),
    };
    let near = Sphere {
        center: Vec3::new(0, 0, -3 * S),
        radius: S,
        material: plain_gray(),
        emit: Vec3::new(S, 0, 0),
    };
    let r = Ray::new(Vec3::zero(), Vec3::new(0, 0, -S));
    let t_far = far.hit(&r, 66, i64::MAX).unwrap().t;
    let t_near = near.hit(&r, 66, i64::MAX).unwrap().t;
    assert_eq!(t_far, 4 * S);
    assert_eq!(t_near, 2 * S);

    let world_a = HittableList { list: vec![Hittable::Sphere(far), Hittable::Sphere(near)] };
    let world_b = HittableList { list: vec![Hittable::Sphere(near), Hittable::Sphere(far)] };
    let rec_a = world_a.hit(&r, 66, i64::MAX).expect("aggregate must hit");
    let rec_b = world_b.hit(&r, 66, i64::MAX).expect("aggregate must hit");
    assert_eq!(rec_a.t, t_near.min(t_far));
    assert_eq!(rec_b.t, t_near.min(t_far));
    assert_eq!(rec_a.emit, Vec3::new(S, 0, 0));
    assert_eq!(rec_b.emit, Vec3::new(S, 0, 0));
}

#[test]
fn empty_scene_misses() {
    let world = HittableList { list: vec![] };
    let r = Ray::new(Vec3::zero(), Vec3::new(0, 0, -S));
    assert!(world.hit(&r, 66, i64::MAX).is_none());
}
