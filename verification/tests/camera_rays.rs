use pathtracer::camera::Camera;
use pathtracer::vec3::Vec3;

const S: i64 = 65536;

// Place the camera one unit in front of the fixed look-at point
// (-0.2, 0, -1): the basis comes out exactly as (u, v, w) = (x, y, z)
// axes, and the center ray points straight down -z.
#[test]
fn center_ray_points_at_the_look_at_point() {
    let lookfrom = Vec3::new(-13107, 0, 0);
    let camera = Camera::new(lookfrom);
    let r = camera.get_ray(S / 2, S / 2);
    assert_eq!(r.orig, lookfrom);
    assert_eq!(r.dir, Vec3::new(0, 0, -S));
}

// The corner ray (s, t) = (0, 0) aims at the lower-left viewport corner:
// half a viewport left and down, one focal length forward.
#[test]
fn corner_ray_spans_half_the_viewport() {
    let lookfrom = Vec3::new(-13107, 0, 0);
    let camera = Camera::new(lookfrom);
    let r = camera.get_ray(0, 0);
    assert_eq!(r.orig, lookfrom);
    // Viewport is 142864 x 80361 raw units at focal length 1.
    assert_eq!(r.dir, Vec3::new(-142864 / 2, -40180, -S));
}
