//! Reflectance models: ideal diffuse (Lambertian) and fuzzy specular
//! (Metal). Scattering consumes random draws, so its contract fixes the
//! deterministic parts exactly and quantifies over the random point.

use vstd::prelude::*;
use crate::fixed::{fx_mul, fx_mul_s, fx_sub, FX_ONE};
use crate::ray::Ray;
use crate::rng::random_unit;
use crate::vec3::{dot_s, length_squared_s, scale_s, unit_s, vadd_s, vsub_s, Vec3};

verus! {

/// The raw value of 2.0.
pub const FX_TWO: i64 = 131072;

#[derive(Clone, Copy, Debug, PartialEq, Eq, Structural)]
pub enum Material {
    Lambertian { attenuation: Vec3 },
    Metal { attenuation: Vec3, fuzziness: i64 },
}

pub open spec fn in_unit_ball(q: Vec3) -> bool {
    length_squared_s(q) < FX_ONE
}

/// The albedo either material attenuates a bounced ray by.
pub open spec fn attenuation_s(m: Material) -> Vec3 {
    match m {
        Material::Lambertian { attenuation } => attenuation,
        Material::Metal { attenuation, .. } => attenuation,
    }
}

/// Mirror reflection: `v - n * (v . n) * 2`.
pub open spec fn reflect_s(v: Vec3, n: Vec3) -> Vec3 {
    vsub_s(v, scale_s(scale_s(n, dot_s(v, n)), FX_TWO))
}

pub fn reflect(v: Vec3, n: Vec3) -> (r: Vec3)
    ensures
        r == reflect_s(v, n),
{
    v.sub(n.scale(v.dot(n)).scale(FX_TWO))
}

/// Rejection sampling for a point strictly inside the unit ball; the loop is
/// capped defensively, falling back to the origin (which lies inside).
pub fn random_in_unit_sphere(rng: &mut rand::rngs::StdRng) -> (p: Vec3)
    ensures
        in_unit_ball(p),
{
    let mut attempts: u32 = 0;
    while attempts < 1000
        decreases 1000 - attempts,
    {
        let u1 = random_unit(rng);
        let u2 = random_unit(rng);
        let u3 = random_unit(rng);
        let cand = Vec3::new(
            fx_sub(fx_mul(u1, FX_TWO), FX_ONE),
            fx_sub(fx_mul(u2, FX_TWO), FX_ONE),
            fx_sub(fx_mul(u3, FX_TWO), FX_ONE),
        );
        if cand.length_squared() < FX_ONE {
            return cand;
        }
        attempts = attempts + 1;
    }
    Vec3::zero()
}

/// What scattering promises: origin and attenuation are fixed, the scattered
/// direction is the stated formula over some random point in the unit ball,
/// and a metal ray bounces exactly when the scattered direction leaves the
/// surface on the normal's side (a Lambertian ray always bounces).
pub open spec fn scatter_post(m: Material, r: Ray, normal: Vec3, point: Vec3, res: (Ray, Vec3, bool)) -> bool {
    match m {
        Material::Lambertian { attenuation } => {
            &&& res.1 == attenuation
            &&& res.2 == true
            &&& res.0.orig == point
            &&& exists|q: Vec3|
                #[trigger] in_unit_ball(q)
                && res.0.dir == vsub_s(vadd_s(vadd_s(point, normal), q), point)
        },
        Material::Metal { attenuation, fuzziness } => {
            &&& res.1 == attenuation
            &&& res.0.orig == point
            &&& exists|q: Vec3|
                #[trigger] in_unit_ball(q)
                && res.0.dir == vadd_s(reflect_s(unit_s(r.dir), normal), scale_s(q, fuzziness))
            &&& res.2 == (dot_s(res.0.dir, normal) > 0)
            &&& (fuzziness == 0 ==> res.0.dir == reflect_s(unit_s(r.dir), normal))
        },
    }
}

impl Material {
    pub fn scatter(&self, r: &Ray, normal: Vec3, point: Vec3, rng: &mut rand::rngs::StdRng) -> (res: (Ray, Vec3, bool))
        ensures
            scatter_post(*self, *r, normal, point, res),
    {
        let rand_d = random_in_unit_sphere(rng);
        let target = point.add(normal).add(rand_d);

        match self {
            Material::Lambertian { attenuation } => {
                let out = (Ray::new(point, target.sub(point)), *attenuation, true);
                proof {
                    assert(in_unit_ball(rand_d)
                        && out.0.dir == vsub_s(vadd_s(vadd_s(point, normal), rand_d), point));
                }
                out
            },
            Material::Metal { attenuation, fuzziness } => {
                let reflected = reflect(r.dir.unit_vector(), normal);
                let fuzz_d = random_in_unit_sphere(rng);
                let scattered = Ray::new(point, reflected.add(fuzz_d.scale(*fuzziness)));
                let b = scattered.dir.dot(normal) > 0;
                let out = (scattered, *attenuation, b);
                proof {
                    assert(in_unit_ball(fuzz_d)
                        && out.0.dir == vadd_s(reflect_s(unit_s(r.dir), normal), scale_s(fuzz_d, *fuzziness)));
                    if *fuzziness == 0i64 {
                        let refl = reflect_s(unit_s(r.dir), normal);
                        assert(scale_s(fuzz_d, 0i64) == (Vec3 { x: 0i64, y: 0i64, z: 0i64 }));
                        assert(vadd_s(refl, Vec3 { x: 0i64, y: 0i64, z: 0i64 }) == refl);
                    }
                }
                out
            },
        }
    }
}

} // verus!
