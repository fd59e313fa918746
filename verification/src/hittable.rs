//! Geometry: intersection of rays with spheres, axis-aligned rectangles,
//! and an aggregate scene list. A returned record's `t` lies strictly
//! inside `(t_min, t_max)` and its point is `ray.at(t)`.

use vstd::prelude::*;
use crate::fixed::{
    fx_add, fx_add_s, fx_div, fx_div_s, fx_mul, fx_mul_s, fx_neg, fx_neg_s, fx_sqrt, fx_sqrt_s,
    fx_sub, fx_sub_s, is_isqrt, isqrt_s, lemma_fx_div_mono, lemma_isqrt_exists, tdiv, FX_ONE,
};
use crate::material::Material;
use crate::ray::{ray_at_s, Ray};
use crate::vec3::{div_scale_s, dot_s, vsub_s, Vec3};

verus! {

#[derive(Clone, Copy, Debug, PartialEq, Eq, Structural)]
pub struct HitRecord {
    pub point: Vec3,
    pub normal: Vec3,
    pub t: i64,
    pub mat: Material,
    pub emit: Vec3,
}

#[derive(Clone, Copy, Debug, PartialEq, Eq, Structural)]
pub struct Sphere {
    pub center: Vec3,
    pub radius: i64,
    pub material: Material,
    pub emit: Vec3,
}

/// Quadratic coefficient `a = dir . dir` (the direction need not be unit).
pub open spec fn sphere_qa_s(r: Ray) -> i64 {
    dot_s(r.dir, r.dir)
}

/// Half-form coefficient `b = (orig - center) . dir`.
pub open spec fn sphere_qb_s(s: Sphere, r: Ray) -> i64 {
    dot_s(vsub_s(r.orig, s.center), r.dir)
}

/// Constant term `c = (orig - center) . (orig - center) - radius^2`.
pub open spec fn sphere_qc_s(s: Sphere, r: Ray) -> i64 {
    let oc = vsub_s(r.orig, s.center);
    fx_sub_s(dot_s(oc, oc), fx_mul_s(s.radius, s.radius))
}

/// Discriminant `b^2 - a * c`; a tangent ray (zero) counts as a miss.
pub open spec fn sphere_disc_s(s: Sphere, r: Ray) -> i64 {
    fx_sub_s(
        fx_mul_s(sphere_qb_s(s, r), sphere_qb_s(s, r)),
        fx_mul_s(sphere_qa_s(r), sphere_qc_s(s, r)),
    )
}

/// The nearer root `(-b - sqrt(disc)) / a`.
pub open spec fn sphere_t1_s(s: Sphere, r: Ray) -> i64 {
    fx_div_s(
        fx_sub_s(fx_neg_s(sphere_qb_s(s, r)), fx_sqrt_s(sphere_disc_s(s, r))),
        sphere_qa_s(r),
    )
}

/// The farther root `(-b + sqrt(disc)) / a`.
pub open spec fn sphere_t2_s(s: Sphere, r: Ray) -> i64 {
    fx_div_s(
        fx_add_s(fx_neg_s(sphere_qb_s(s, r)), fx_sqrt_s(sphere_disc_s(s, r))),
        sphere_qa_s(r),
    )
}

/// The record for a sphere hit at parameter `t`: the outward normal is
/// `(point - center) / radius`, unit length for a valid radius.
pub open spec fn sphere_record_s(s: Sphere, r: Ray, t: i64) -> HitRecord {
    let point = ray_at_s(r, t);
    HitRecord {
        point,
        normal: div_scale_s(vsub_s(point, s.center), s.radius),
        t,
        mat: s.material,
        emit: s.emit,
    }
}

pub open spec fn sphere_hit_s(s: Sphere, r: Ray, t_min: i64, t_max: i64) -> Option<HitRecord> {
    if sphere_disc_s(s, r) > 0 {
        let t1 = sphere_t1_s(s, r);
        let t2 = sphere_t2_s(s, r);
        if t1 < t_max && t1 > t_min {
            Some(sphere_record_s(s, r, t1))
        } else if t2 < t_max && t2 > t_min {
            Some(sphere_record_s(s, r, t2))
        } else {
            None
        }
    } else {
        None
    }
}

impl Sphere {
    pub fn hit(&self, r: &Ray, t_min: i64, t_max: i64) -> (res: Option<HitRecord>)
        ensures
            res == sphere_hit_s(*self, *r, t_min, t_max),
    {
        let oc = r.orig.sub(self.center);
        let a = r.dir.dot(r.dir);
        let b = oc.dot(r.dir);
        let c = fx_sub(oc.dot(oc), fx_mul(self.radius, self.radius));
        let discriminant = fx_sub(fx_mul(b, b), fx_mul(a, c));
        if discriminant > 0 {
            let sq = fx_sqrt(discriminant);
            let t1 = fx_div(fx_sub(fx_neg(b), sq), a);
            let t2 = fx_div(fx_add(fx_neg(b), sq), a);
            if t1 < t_max && t1 > t_min {
                let point = r.at(t1);
                let normal = point.sub(self.center).div_scale(self.radius);
                Some(HitRecord { point, normal, t: t1, mat: self.material, emit: self.emit })
            } else if t2 < t_max && t2 > t_min {
                let point = r.at(t2);
                let normal = point.sub(self.center).div_scale(self.radius);
                Some(HitRecord { point, normal, t: t2, mat: self.material, emit: self.emit })
            } else {
                None
            }
        } else {
            None
        }
    }
}

#[derive(Clone, Copy, Debug, PartialEq, Eq, Structural)]
pub struct XYRect {
    pub x0: i64,
    pub x1: i64,
    pub y0: i64,
    pub y1: i64,
    pub k: i64,
    pub material: Material,
    pub emit: Vec3,
}

pub open spec fn xy_rect_hit_s(rc: XYRect, r: Ray, t_min: i64, t_max: i64) -> Option<HitRecord> {
    let t = fx_div_s(fx_sub_s(rc.k, r.orig.z), r.dir.z);
    if t <= t_min || t >= t_max {
        None
    } else {
        let x = fx_add_s(r.orig.x, fx_mul_s(t, r.dir.x));
        let y = fx_add_s(r.orig.y, fx_mul_s(t, r.dir.y));
        if x < rc.x0 || x > rc.x1 || y < rc.y0 || y > rc.y1 {
            None
        } else {
            Some(HitRecord {
                point: ray_at_s(r, t),
                normal: Vec3 { x: 0, y: 0, z: FX_ONE },
                t,
                mat: rc.material,
                emit: rc.emit,
            })
        }
    }
}

impl XYRect {
    pub fn hit(&self, r: &Ray, t_min: i64, t_max: i64) -> (res: Option<HitRecord>)
        ensures
            res == xy_rect_hit_s(*self, *r, t_min, t_max),
    {
        let t = fx_div(fx_sub(self.k, r.orig.z), r.dir.z);
        if t <= t_min || t >= t_max {
            return None;
        }
        let x = fx_add(r.orig.x, fx_mul(t, r.dir.x));
        let y = fx_add(r.orig.y, fx_mul(t, r.dir.y));
        if x < self.x0 || x > self.x1 || y < self.y0 || y > self.y1 {
            return None;
        }
        Some(HitRecord {
            point: r.at(t),
            normal: Vec3::new(0, 0, FX_ONE),
            t,
            mat: self.material,
            emit: self.emit,
        })
    }
}

#[derive(Clone, Copy, Debug, PartialEq, Eq, Structural)]
pub struct XZRect {
    pub x0: i64,
    pub x1: i64,
    pub z0: i64,
    pub z1: i64,
    pub k: i64,
    pub material: Material,
    pub emit: Vec3,
}

pub open spec fn xz_rect_hit_s(rc: XZRect, r: Ray, t_min: i64, t_max: i64) -> Option<HitRecord> {
    let t = fx_div_s(fx_sub_s(rc.k, r.orig.y), r.dir.y);
    if t <= t_min || t >= t_max {
        None
    } else {
        let x = fx_add_s(r.orig.x, fx_mul_s(t, r.dir.x));
        let z = fx_add_s(r.orig.z, fx_mul_s(t, r.dir.z));
        if x < rc.x0 || x > rc.x1 || z < rc.z0 || z > rc.z1 {
            None
        } else {
            Some(HitRecord {
                point: ray_at_s(r, t),
                normal: Vec3 { x: 0, y: FX_ONE, z: 0 },
                t,
                mat: rc.material,
                emit: rc.emit,
            })
        }
    }
}

impl XZRect {
    pub fn hit(&self, r: &Ray, t_min: i64, t_max: i64) -> (res: Option<HitRecord>)
        ensures
            res == xz_rect_hit_s(*self, *r, t_min, t_max),
    {
        let t = fx_div(fx_sub(self.k, r.orig.y), r.dir.y);
        if t <= t_min || t >= t_max {
            return None;
        }
        let x = fx_add(r.orig.x, fx_mul(t, r.dir.x));
        let z = fx_add(r.orig.z, fx_mul(t, r.dir.z));
        if x < self.x0 || x > self.x1 || z < self.z0 || z > self.z1 {
            return None;
        }
        Some(HitRecord {
            point: r.at(t),
            normal: Vec3::new(0, FX_ONE, 0),
            t,
            mat: self.material,
            emit: self.emit,
        })
    }
}

#[derive(Clone, Copy, Debug, PartialEq, Eq, Structural)]
pub struct YZRect {
    pub y0: i64,
    pub y1: i64,
    pub z0: i64,
    pub z1: i64,
    pub k: i64,
    pub material: Material,
    pub emit: Vec3,
}

pub open spec fn yz_rect_hit_s(rc: YZRect, r: Ray, t_min: i64, t_max: i64) -> Option<HitRecord> {
    let t = fx_div_s(fx_sub_s(rc.k, r.orig.x), r.dir.x);
    if t <= t_min || t >= t_max {
        None
    } else {
        let y = fx_add_s(r.orig.y, fx_mul_s(t, r.dir.y));
        let z = fx_add_s(r.orig.z, fx_mul_s(t, r.dir.z));
        if y < rc.y0 || y > rc.y1 || z < rc.z0 || z > rc.z1 {
            None
        } else {
            Some(HitRecord {
                point: ray_at_s(r, t),
                normal: Vec3 { x: FX_ONE, y: 0, z: 0 },
                t,
                mat: rc.material,
                emit: rc.emit,
            })
        }
    }
}

impl YZRect {
    pub fn hit(&self, r: &Ray, t_min: i64, t_max: i64) -> (res: Option<HitRecord>)
        ensures
            res == yz_rect_hit_s(*self, *r, t_min, t_max),
    {
        let t = fx_div(fx_sub(self.k, r.orig.x), r.dir.x);
        if t <= t_min || t >= t_max {
            return None;
        }
        let y = fx_add(r.orig.y, fx_mul(t, r.dir.y));
        let z = fx_add(r.orig.z, fx_mul(t, r.dir.z));
        if y < self.y0 || y > self.y1 || z < self.z0 || z > self.z1 {
            return None;
        }
        Some(HitRecord {
            point: r.at(t),
            normal: Vec3::new(FX_ONE, 0, 0),
            t,
            mat: self.material,
            emit: self.emit,
        })
    }
}

/// The closed set of shapes, dispatched by pattern matching.
#[derive(Clone, Copy, Debug, PartialEq, Eq, Structural)]
pub enum Hittable {
    Sphere(Sphere),
    XYRect(XYRect),
    XZRect(XZRect),
    YZRect(YZRect),
}

pub open spec fn hittable_hit_s(h: Hittable, r: Ray, t_min: i64, t_max: i64) -> Option<HitRecord> {
    match h {
        Hittable::Sphere(s) => sphere_hit_s(s, r, t_min, t_max),
        Hittable::XYRect(rc) => xy_rect_hit_s(rc, r, t_min, t_max),
        Hittable::XZRect(rc) => xz_rect_hit_s(rc, r, t_min, t_max),
        Hittable::YZRect(rc) => yz_rect_hit_s(rc, r, t_min, t_max),
    }
}

impl Hittable {
    pub fn hit(&self, r: &Ray, t_min: i64, t_max: i64) -> (res: Option<HitRecord>)
        ensures
            res == hittable_hit_s(*self, *r, t_min, t_max),
    {
        match self {
            Hittable::Sphere(s) => s.hit(r, t_min, t_max),
            Hittable::XYRect(rc) => rc.hit(r, t_min, t_max),
            Hittable::XZRect(rc) => rc.hit(r, t_min, t_max),
            Hittable::YZRect(rc) => rc.hit(r, t_min, t_max),
        }
    }
}

pub struct HittableList {
    pub list: Vec<Hittable>,
}

/// The scene's answer after considering a prefix of its members: each member
/// is tested against a shrinking upper bound, so only strictly closer hits
/// replace the current one.
pub open spec fn list_hit_s(objs: Seq<Hittable>, r: Ray, t_min: i64, t_max: i64) -> Option<HitRecord>
    decreases objs.len(),
{
    if objs.len() == 0 {
        None
    } else {
        let prev = list_hit_s(objs.drop_last(), r, t_min, t_max);
        let bound = match prev {
            None => t_max,
            Some(h) => h.t,
        };
        match hittable_hit_s(objs.last(), r, t_min, bound) {
            None => prev,
            Some(h) => Some(h),
        }
    }
}

impl HittableList {
    pub fn hit(&self, r: &Ray, t_min: i64, t_max: i64) -> (res: Option<HitRecord>)
        ensures
            res == list_hit_s(self.list@, *r, t_min, t_max),
    {
        let mut closest_so_far = t_max;
        let mut res: Option<HitRecord> = None;
        let mut i: usize = 0;
        while i < self.list.len()
            invariant
                i <= self.list.len(),
                res == list_hit_s(self.list@.take(i as int), *r, t_min, t_max),
                closest_so_far == (match res {
                    None => t_max,
                    Some(h) => h.t,
                }),
            decreases self.list.len() - i,
        {
            proof {
                assert(self.list@.take(i as int + 1).drop_last() =~= self.list@.take(i as int));
                assert(self.list@.take(i as int + 1).last() == self.list@[i as int]);
            }
            match self.list[i].hit(r, t_min, closest_so_far) {
                Some(hit_record) => {
                    closest_so_far = hit_record.t;
                    res = Some(hit_record);
                },
                None => {},
            }
            i = i + 1;
        }
        proof {
            assert(self.list@.take(self.list.len() as int) =~= self.list@);
        }
        res
    }
}


proof fn lemma_dot_self_nonneg(v: Vec3)
    ensures
        dot_s(v, v) >= 0,
{
    assert(v.x as int * v.x as int >= 0) by (nonlinear_arith);
    assert(v.y as int * v.y as int >= 0) by (nonlinear_arith);
    assert(v.z as int * v.z as int >= 0) by (nonlinear_arith);
    assert forall|xx: int| xx >= 0 implies tdiv(xx, 65536) >= 0 by {
        assert(xx / 65536 >= 0) by (nonlinear_arith)
            requires xx >= 0;
    }
}

proof fn lemma_fx_sqrt_nonneg(d: i64)
    ensures
        fx_sqrt_s(d) >= 0,
        fx_sqrt_s(d) < 0x10000000000,
{
    if d > 0 {
        let n = d as int * 65536;
        lemma_isqrt_exists(n);
        let r = isqrt_s(n);
        assert(r < 0x10000000000) by (nonlinear_arith)
            requires is_isqrt(n, r) && n < 0x100000000000000000000;
    }
}

/// The two quadratic roots come out ordered: `t1 <= t2`.
proof fn lemma_sphere_roots_ordered(s: Sphere, r: Ray)
    ensures
        sphere_t1_s(s, r) <= sphere_t2_s(s, r),
{
    lemma_dot_self_nonneg(r.dir);
    lemma_fx_sqrt_nonneg(sphere_disc_s(s, r));
    lemma_fx_div_mono(
        fx_sub_s(fx_neg_s(sphere_qb_s(s, r)), fx_sqrt_s(sphere_disc_s(s, r))),
        fx_add_s(fx_neg_s(sphere_qb_s(s, r)), fx_sqrt_s(sphere_disc_s(s, r))),
        sphere_qa_s(r),
    );
}

/// Law: every returned record's `t` lies strictly inside `(t_min, t_max)`
/// and its point is the ray evaluated at that `t`.
pub proof fn lemma_hit_in_bounds(h: Hittable, r: Ray, t_min: i64, t_max: i64, rec: HitRecord)
    requires
        hittable_hit_s(h, r, t_min, t_max) == Some(rec),
    ensures
        t_min < rec.t < t_max,
        rec.point == ray_at_s(r, rec.t),
{
}

/// Shrinking the upper bound keeps a hit that is still below it, and drops
/// a hit that is not; no new hit can appear.
pub proof fn lemma_hit_shrink(h: Hittable, r: Ray, t_min: i64, t_max: i64, t_cap: i64, rec: HitRecord)
    requires
        hittable_hit_s(h, r, t_min, t_max) == Some(rec),
        t_cap <= t_max,
    ensures
        rec.t < t_cap ==> hittable_hit_s(h, r, t_min, t_cap) == Some(rec),
        rec.t >= t_cap ==> hittable_hit_s(h, r, t_min, t_cap) is None,
{
    match h {
        Hittable::Sphere(s) => {
            lemma_sphere_roots_ordered(s, r);
        },
        Hittable::XYRect(_) => {},
        Hittable::XZRect(_) => {},
        Hittable::YZRect(_) => {},
    }
}

pub open spec fn emit_of(h: Hittable) -> Vec3 {
    match h {
        Hittable::Sphere(s) => s.emit,
        Hittable::XYRect(rc) => rc.emit,
        Hittable::XZRect(rc) => rc.emit,
        Hittable::YZRect(rc) => rc.emit,
    }
}

pub open spec fn material_of(h: Hittable) -> Material {
    match h {
        Hittable::Sphere(s) => s.material,
        Hittable::XYRect(rc) => rc.material,
        Hittable::XZRect(rc) => rc.material,
        Hittable::YZRect(rc) => rc.material,
    }
}

/// Every record the aggregate returns carries the emission and material of
/// one of the scene's members.
pub proof fn lemma_list_hit_member(objs: Seq<Hittable>, r: Ray, t_min: i64, t_max: i64, h: HitRecord)
    requires
        list_hit_s(objs, r, t_min, t_max) == Some(h),
    ensures
        exists|k: int|
            0 <= k < objs.len() && h.emit == emit_of(#[trigger] objs[k])
                && h.mat == material_of(objs[k]),
    decreases objs.len(),
{
    let prev = list_hit_s(objs.drop_last(), r, t_min, t_max);
    let bound = match prev {
        None => t_max,
        Some(p) => p.t,
    };
    let own = hittable_hit_s(objs.last(), r, t_min, bound);
    if own is Some {
        let k = objs.len() - 1;
        match objs.last() {
            Hittable::Sphere(s) => {},
            Hittable::XYRect(rc) => {},
            Hittable::XZRect(rc) => {},
            Hittable::YZRect(rc) => {},
        }
        assert(0 <= k < objs.len() && h.emit == emit_of(objs[k as int])
            && h.mat == material_of(objs[k as int]));
    } else {
        lemma_list_hit_member(objs.drop_last(), r, t_min, t_max, h);
        let k = choose|k: int|
            0 <= k < objs.drop_last().len() && h.emit == emit_of(#[trigger] objs.drop_last()[k])
                && h.mat == material_of(objs.drop_last()[k]);
        assert(objs.drop_last()[k] == objs[k]);
        assert(0 <= k < objs.len() && h.emit == emit_of(objs[k]) && h.mat == material_of(objs[k]));
    }
}

/// Law: the scene aggregate returns the globally nearest hit. With two
/// members that each hit the ray on their own, the aggregate's answer is
/// the one with the smaller `t` (the first member wins an exact tie).
pub proof fn lemma_scene_nearest(
    h0: Hittable,
    h1: Hittable,
    r: Ray,
    t_min: i64,
    t_max: i64,
    r0: HitRecord,
    r1: HitRecord,
)
    requires
        hittable_hit_s(h0, r, t_min, t_max) == Some(r0),
        hittable_hit_s(h1, r, t_min, t_max) == Some(r1),
    ensures
        list_hit_s(seq![h0, h1], r, t_min, t_max) == Some(if r1.t < r0.t { r1 } else { r0 }),
{
    let objs = seq![h0, h1];
    assert(objs.drop_last() =~= seq![h0]);
    assert(seq![h0].drop_last() =~= Seq::<Hittable>::empty());
    assert(list_hit_s(Seq::<Hittable>::empty(), r, t_min, t_max) is None);
    assert(seq![h0].last() == h0);
    assert(list_hit_s(seq![h0], r, t_min, t_max) == Some(r0));
    lemma_hit_in_bounds(h0, r, t_min, t_max, r0);
    lemma_hit_shrink(h1, r, t_min, t_max, r0.t, r1);
}

} // verus!
