//! Camera: maps normalized viewport coordinates in [0, 1] to world-space
//! rays, from a fixed look-at point, up vector, field of view (1.1 rad)
//! and 16:9 aspect ratio; only `lookfrom` varies at run time.

use vstd::prelude::*;
use crate::material::FX_TWO;
use crate::ray::Ray;
use crate::vec3::{cross_s, div_scale_s, scale_s, unit_s, vadd_s, vsub_s, Vec3};

verus! {

/// Fixed look-at point (-0.2, 0, -1) in raw units.
pub const LOOKAT_X_RAW: i64 = -13107;

pub const LOOKAT_Z_RAW: i64 = -65536;

/// The fixed up vector is (0, 1, 0).
pub const VUP_Y_RAW: i64 = 65536;

/// Viewport height `2 * tan(vfov / 2)` for `vfov = 1.1` rad, in raw units:
/// `2 * 0.6131052 * 65536`, rounded.
pub const VIEWPORT_HEIGHT_RAW: i64 = 80361;

/// Viewport width for the 16:9 aspect ratio: `VIEWPORT_HEIGHT_RAW * 16 / 9`
/// (exact in raw units).
pub const VIEWPORT_WIDTH_RAW: i64 = 142864;

pub open spec fn lookat_s() -> Vec3 {
    Vec3 { x: LOOKAT_X_RAW, y: 0, z: LOOKAT_Z_RAW }
}

pub open spec fn vup_s() -> Vec3 {
    Vec3 { x: 0, y: VUP_Y_RAW, z: 0 }
}

/// Backward axis `w = unit(lookfrom - lookat)`.
pub open spec fn cam_w_s(lookfrom: Vec3) -> Vec3 {
    unit_s(vsub_s(lookfrom, lookat_s()))
}

/// Right axis `u = unit(vup x w)`.
pub open spec fn cam_u_s(lookfrom: Vec3) -> Vec3 {
    unit_s(cross_s(vup_s(), cam_w_s(lookfrom)))
}

/// Up axis `v = w x u`.
pub open spec fn cam_v_s(lookfrom: Vec3) -> Vec3 {
    cross_s(cam_w_s(lookfrom), cam_u_s(lookfrom))
}

pub open spec fn cam_horizontal_s(lookfrom: Vec3) -> Vec3 {
    scale_s(cam_u_s(lookfrom), VIEWPORT_WIDTH_RAW)
}

pub open spec fn cam_vertical_s(lookfrom: Vec3) -> Vec3 {
    scale_s(cam_v_s(lookfrom), VIEWPORT_HEIGHT_RAW)
}

/// `lookfrom - horizontal/2 - vertical/2 - w` (the focal length is 1).
pub open spec fn cam_lower_left_s(lookfrom: Vec3) -> Vec3 {
    vsub_s(
        vsub_s(
            vsub_s(lookfrom, div_scale_s(cam_horizontal_s(lookfrom), FX_TWO)),
            div_scale_s(cam_vertical_s(lookfrom), FX_TWO),
        ),
        cam_w_s(lookfrom),
    )
}

/// Direction of the ray through viewport coordinates `(s, t)`:
/// `lower_left + s * horizontal + t * vertical - origin`.
pub open spec fn get_ray_dir_s(cam: Camera, s: i64, t: i64) -> Vec3 {
    vsub_s(
        vadd_s(
            vadd_s(cam.lower_left_corner, scale_s(cam.horizontal, s)),
            scale_s(cam.vertical, t),
        ),
        cam.origin,
    )
}

pub struct Camera {
    pub origin: Vec3,
    pub horizontal: Vec3,
    pub vertical: Vec3,
    pub lower_left_corner: Vec3,
}

impl Camera {
    /// A `lookfrom` equal to the look-at point gives a zero-length `w` whose
    /// normalization saturates (the documented degenerate case).
    pub fn new(lookfrom: Vec3) -> (cam: Self)
        ensures
            cam.origin == lookfrom,
            cam.horizontal == cam_horizontal_s(lookfrom),
            cam.vertical == cam_vertical_s(lookfrom),
            cam.lower_left_corner == cam_lower_left_s(lookfrom),
    {
        let lookat = Vec3::new(LOOKAT_X_RAW, 0, LOOKAT_Z_RAW);
        let vup = Vec3::new(0, VUP_Y_RAW, 0);

        let w = lookfrom.sub(lookat).unit_vector();
        let u = vup.cross(w).unit_vector();
        let v = w.cross(u);

        let origin = lookfrom;
        let horizontal = u.scale(VIEWPORT_WIDTH_RAW);
        let vertical = v.scale(VIEWPORT_HEIGHT_RAW);
        let lower_left_corner = origin
            .sub(horizontal.div_scale(FX_TWO))
            .sub(vertical.div_scale(FX_TWO))
            .sub(w);

        Camera { origin, horizontal, vertical, lower_left_corner }
    }

    pub fn get_ray(&self, s: i64, t: i64) -> (r: Ray)
        ensures
            r.orig == self.origin,
            r.dir == get_ray_dir_s(*self, s, t),
    {
        Ray::new(
            self.origin,
            self.lower_left_corner
                .add(self.horizontal.scale(s))
                .add(self.vertical.scale(t))
                .sub(self.origin),
        )
    }
}

} // verus!
