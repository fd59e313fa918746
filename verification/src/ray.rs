//! Rays: an origin and a (not necessarily unit-length) direction.

use vstd::prelude::*;
use crate::vec3::{scale_s, vadd_s, Vec3};

verus! {

#[derive(Clone, Copy, Debug, PartialEq, Eq, Structural)]
pub struct Ray {
    pub orig: Vec3,
    pub dir: Vec3,
}

/// The point at parameter `t` along the ray: `orig + t * dir`.
pub open spec fn ray_at_s(r: Ray, t: i64) -> Vec3 {
    vadd_s(r.orig, scale_s(r.dir, t))
}

impl Ray {
    pub fn new(orig: Vec3, dir: Vec3) -> (r: Self)
        ensures
            r == (Ray { orig, dir }),
    {
        Ray { orig, dir }
    }

    pub fn at(&self, t: i64) -> (p: Vec3)
        ensures
            p == ray_at_s(*self, t),
    {
        self.orig.add(self.dir.scale(t))
    }
}

} // verus!
