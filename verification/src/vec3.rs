//! Three-component fixed-point vectors, used interchangeably as points,
//! directions and RGB colors.

use vstd::prelude::*;
use crate::fixed::{
    abs_i, clamp64, fx_add, fx_add_s, fx_div, fx_div_s, fx_mul, fx_mul_s, fx_neg, fx_neg_s,
    fx_sqrt, fx_sqrt_s, fx_sub, fx_sub_s, is_isqrt, isqrt_s, lemma_abs_mul_le,
    lemma_isqrt_exists, lemma_tdiv_rem, tdiv,
};

verus! {

#[derive(Clone, Copy, Debug, PartialEq, Eq, Structural)]
pub struct Vec3 {
    pub x: i64,
    pub y: i64,
    pub z: i64,
}

pub open spec fn vzero_s() -> Vec3 {
    Vec3 { x: 0, y: 0, z: 0 }
}

pub open spec fn vadd_s(a: Vec3, b: Vec3) -> Vec3 {
    Vec3 { x: fx_add_s(a.x, b.x), y: fx_add_s(a.y, b.y), z: fx_add_s(a.z, b.z) }
}

pub open spec fn vsub_s(a: Vec3, b: Vec3) -> Vec3 {
    Vec3 { x: fx_sub_s(a.x, b.x), y: fx_sub_s(a.y, b.y), z: fx_sub_s(a.z, b.z) }
}

pub open spec fn vmul_s(a: Vec3, b: Vec3) -> Vec3 {
    Vec3 { x: fx_mul_s(a.x, b.x), y: fx_mul_s(a.y, b.y), z: fx_mul_s(a.z, b.z) }
}

pub open spec fn vdiv_s(a: Vec3, b: Vec3) -> Vec3 {
    Vec3 { x: fx_div_s(a.x, b.x), y: fx_div_s(a.y, b.y), z: fx_div_s(a.z, b.z) }
}

pub open spec fn vneg_s(a: Vec3) -> Vec3 {
    Vec3 { x: fx_neg_s(a.x), y: fx_neg_s(a.y), z: fx_neg_s(a.z) }
}

pub open spec fn scale_s(a: Vec3, k: i64) -> Vec3 {
    Vec3 { x: fx_mul_s(a.x, k), y: fx_mul_s(a.y, k), z: fx_mul_s(a.z, k) }
}

pub open spec fn div_scale_s(a: Vec3, k: i64) -> Vec3 {
    Vec3 { x: fx_div_s(a.x, k), y: fx_div_s(a.y, k), z: fx_div_s(a.z, k) }
}

pub open spec fn dot_s(a: Vec3, b: Vec3) -> i64 {
    fx_add_s(fx_add_s(fx_mul_s(a.x, b.x), fx_mul_s(a.y, b.y)), fx_mul_s(a.z, b.z))
}

pub open spec fn cross_s(a: Vec3, b: Vec3) -> Vec3 {
    Vec3 {
        x: fx_sub_s(fx_mul_s(a.y, b.z), fx_mul_s(a.z, b.y)),
        y: fx_sub_s(fx_mul_s(a.z, b.x), fx_mul_s(a.x, b.z)),
        z: fx_sub_s(fx_mul_s(a.x, b.y), fx_mul_s(a.y, b.x)),
    }
}

pub open spec fn length_squared_s(a: Vec3) -> i64 {
    dot_s(a, a)
}

pub open spec fn length_s(a: Vec3) -> i64 {
    fx_sqrt_s(length_squared_s(a))
}

pub open spec fn unit_s(a: Vec3) -> Vec3 {
    div_scale_s(a, length_s(a))
}

/// One truncated product of the fixed-point dot of `c` and `v`, with the
/// bookkeeping needed by the orthogonality law: the exact product, the
/// truncation remainder, and the bounds that rule saturation out.
proof fn lemma_dot_term(ci: i64, vi: i64, bound: int) -> (r: (int, int))
    requires
        1 <= bound <= 0x40000000,
        abs_i(ci as int) <= 0x200000000000,
        abs_i(vi as int) <= bound,
    ensures
        fx_mul_s(ci, vi) as int == r.0,
        65536 * r.0 == ci as int * vi as int - r.1,
        abs_i(r.1) < 65536,
        abs_i(r.0) <= 0x800000000000000int,
{
    let prod = ci as int * vi as int;
    lemma_abs_mul_le(ci as int, vi as int, 0x200000000000, bound);
    assert(abs_i(prod) <= 0x8000000000000000000);
    let u = tdiv(prod, 65536);
    lemma_tdiv_rem(prod, 65536);
    assert(abs_i(u) * 65536 <= 0x8000000000000000000);
    assert(clamp64(u) == u as i64);
    (u, prod - 65536 * u)
}

/// One component of the fixed-point cross product, with its exact value and
/// accumulated truncation error: `65536 * component == exact - err`.
proof fn lemma_cross_term(p: i64, q: i64, pp: i64, qq: i64, bound: int) -> (r: (int, int))
    requires
        1 <= bound <= 0x40000000,
        abs_i(p as int) <= bound,
        abs_i(q as int) <= bound,
        abs_i(pp as int) <= bound,
        abs_i(qq as int) <= bound,
    ensures
        fx_sub_s(fx_mul_s(p, q), fx_mul_s(pp, qq)) as int == r.0,
        65536 * r.0 == p as int * q as int - pp as int * qq as int - r.1,
        abs_i(r.1) < 2 * 65536,
        abs_i(r.0) <= 0x200000000000,
{
    let e1 = p as int * q as int;
    let e2 = pp as int * qq as int;
    lemma_abs_mul_le(p as int, q as int, bound, bound);
    lemma_abs_mul_le(pp as int, qq as int, bound, bound);
    assert(bound * bound <= 0x1000000000000000) by (nonlinear_arith)
        requires 0 <= bound <= 0x40000000;
    let m = tdiv(e1, 65536);
    let n = tdiv(e2, 65536);
    lemma_tdiv_rem(e1, 65536);
    lemma_tdiv_rem(e2, 65536);
    assert(abs_i(m) * 65536 <= 0x1000000000000000);
    assert(abs_i(n) * 65536 <= 0x1000000000000000);
    assert(clamp64(m) == m as i64);
    assert(clamp64(n) == n as i64);
    assert(clamp64(m - n) == (m - n) as i64);
    (m - n, (e1 - 65536 * m) - (e2 - 65536 * n))
}

/// The fixed-point dot of the fixed-point cross with `v` is small whenever
/// the exact (unrounded) cross product is orthogonal to `v`: all that is
/// left is truncation error.
proof fn lemma_cross_dot_small(a: Vec3, b: Vec3, v: Vec3, bound: int)
    requires
        1 <= bound <= 0x40000000,
        abs_i(a.x as int) <= bound,
        abs_i(a.y as int) <= bound,
        abs_i(a.z as int) <= bound,
        abs_i(b.x as int) <= bound,
        abs_i(b.y as int) <= bound,
        abs_i(b.z as int) <= bound,
        abs_i(v.x as int) <= bound,
        abs_i(v.y as int) <= bound,
        abs_i(v.z as int) <= bound,
        (a.y * b.z - a.z * b.y) * v.x + (a.z * b.x - a.x * b.z) * v.y
            + (a.x * b.y - a.y * b.x) * v.z == 0,
    ensures
        65536 * abs_i(dot_s(cross_s(a, b), v) as int) <= 6 * bound + 3 * 65536,
{
    let c = cross_s(a, b);
    let (c1, e1) = lemma_cross_term(a.y, b.z, a.z, b.y, bound);
    let (c2, e2) = lemma_cross_term(a.z, b.x, a.x, b.z, bound);
    let (c3, e3) = lemma_cross_term(a.x, b.y, a.y, b.x, bound);
    assert(c.x as int == c1 && c.y as int == c2 && c.z as int == c3);

    let (u1, f1) = lemma_dot_term(c.x, v.x, bound);
    let (u2, f2) = lemma_dot_term(c.y, v.y, bound);
    let (u3, f3) = lemma_dot_term(c.z, v.z, bound);

    // The fixed-point dot does not saturate.
    assert(fx_add_s(fx_mul_s(c.x, v.x), fx_mul_s(c.y, v.y)) as int == u1 + u2);
    let dd = u1 + u2 + u3;
    assert(dot_s(c, v) as int == dd);

    // Pass from the truncated products to the exact ones.
    assert(65536 * (c1 * (v.x as int)) == (a.y as int * b.z as int - a.z as int * b.y as int)
        * (v.x as int) - e1 * (v.x as int)) by (nonlinear_arith)
        requires 65536 * c1 == a.y as int * b.z as int - a.z as int * b.y as int - e1;
    assert(65536 * (c2 * (v.y as int)) == (a.z as int * b.x as int - a.x as int * b.z as int)
        * (v.y as int) - e2 * (v.y as int)) by (nonlinear_arith)
        requires 65536 * c2 == a.z as int * b.x as int - a.x as int * b.z as int - e2;
    assert(65536 * (c3 * (v.z as int)) == (a.x as int * b.y as int - a.y as int * b.x as int)
        * (v.z as int) - e3 * (v.z as int)) by (nonlinear_arith)
        requires 65536 * c3 == a.x as int * b.y as int - a.y as int * b.x as int - e3;

    // The exact cross is orthogonal to v, so only error terms remain.
    assert(65536 * (65536 * dd) == -(e1 * (v.x as int) + e2 * (v.y as int) + e3 * (v.z as int))
        - 65536 * (f1 + f2 + f3));

    lemma_abs_mul_le(e1, v.x as int, 2int * 65536, bound);
    lemma_abs_mul_le(e2, v.y as int, 2int * 65536, bound);
    lemma_abs_mul_le(e3, v.z as int, 2int * 65536, bound);

    assert(abs_i(65536 * (65536 * dd)) <= 3 * (2 * 65536 * bound) + 65536 * (3 * 65536));
    assert(65536 * (65536 * abs_i(dd)) <= 65536 * (6 * bound + 3 * 65536));
}

/// One component of a vector scaled to unit length: the truncated quotient
/// `ai * 65536 / l`, its remainder, the component's truncated square, and
/// that square's remainder.
proof fn lemma_unit_comp(ai: i64, l: i64) -> (r: (int, int, int, int))
    requires
        65536 <= l,
        abs_i(ai as int) <= l + 445,
    ensures
        fx_div_s(ai, l) as int == r.0,
        l as int * r.0 == ai as int * 65536 - r.1,
        abs_i(r.1) < l as int,
        abs_i(r.0) <= 65536 + 446,
        fx_mul_s(fx_div_s(ai, l), fx_div_s(ai, l)) as int == r.2,
        65536 * r.2 == r.0 * r.0 - r.3,
        0 <= r.3 < 65536,
        0 <= r.2 <= 67330,
{
    let li = l as int;
    let num = ai as int * 65536;
    let u = tdiv(num, li);
    lemma_tdiv_rem(num, li);
    assert(abs_i(num) == abs_i(ai as int) * 65536);
    assert(abs_i(u) <= 65536 + 446) by (nonlinear_arith)
        requires
            abs_i(u) * li <= abs_i(ai as int) * 65536,
            abs_i(ai as int) <= li + 445,
            li >= 65536,
    ;
    assert(clamp64(u) == u as i64);
    let usq = u * u;
    assert(usq >= 0 && usq <= 4412489124) by (nonlinear_arith)
        requires usq == u * u && abs_i(u) <= 65982;
    let w = tdiv(usq, 65536);
    lemma_tdiv_rem(usq, 65536);
    assert(clamp64(w) == w as i64);
    (u, num - li * u, w, usq - 65536 * w)
}

/// Law: a normalized vector has length one, up to fixed-point truncation.
/// For a vector whose components do not saturate and whose length is at
/// least one, the squared length of `unit_vector` lies within 12/65536
/// of one (in raw units: between 65526 and 65548).
pub proof fn lemma_unit_vector_length(a: Vec3, bound: int)
    requires
        1 <= bound <= 0x40000000,
        abs_i(a.x as int) <= bound,
        abs_i(a.y as int) <= bound,
        abs_i(a.z as int) <= bound,
        length_s(a) >= 65536,
    ensures
        65526 <= length_squared_s(unit_s(a)) <= 65548,
{
    // The squared length of `a`, with its three truncation remainders.
    let qx = a.x as int * a.x as int;
    let qy = a.y as int * a.y as int;
    let qz = a.z as int * a.z as int;
    assert(qx >= 0 && qx <= 0x1000000000000000) by (nonlinear_arith)
        requires qx == a.x as int * a.x as int && abs_i(a.x as int) <= 0x40000000;
    assert(qy >= 0 && qy <= 0x1000000000000000) by (nonlinear_arith)
        requires qy == a.y as int * a.y as int && abs_i(a.y as int) <= 0x40000000;
    assert(qz >= 0 && qz <= 0x1000000000000000) by (nonlinear_arith)
        requires qz == a.z as int * a.z as int && abs_i(a.z as int) <= 0x40000000;
    let mx = tdiv(qx, 65536);
    let my = tdiv(qy, 65536);
    let mz = tdiv(qz, 65536);
    lemma_tdiv_rem(qx, 65536);
    lemma_tdiv_rem(qy, 65536);
    lemma_tdiv_rem(qz, 65536);
    assert(clamp64(mx) == mx as i64 && clamp64(my) == my as i64 && clamp64(mz) == mz as i64);
    let lsq = mx + my + mz;
    assert(length_squared_s(a) as int == lsq);

    // The length is the floor square root of `lsq * 65536`.
    let n = lsq * 65536;
    assert(lsq > 0);
    lemma_isqrt_exists(n);
    let rt = isqrt_s(n);
    assert(rt < 0x100000000) by (nonlinear_arith)
        requires is_isqrt(n, rt) && n < 0x10000000000000000;
    assert(length_s(a) as int == rt);
    let li = length_s(a);
    let l = li as int;
    assert(l * l <= n < (l + 1) * (l + 1));
    assert((l + 1) * (l + 1) == l * l + 2 * l + 1) by (nonlinear_arith);

    // No component exceeds the length by more than the sqrt truncation.
    assert(qx <= n + 65536 && qy <= n + 65536 && qz <= n + 65536);
    assert(abs_i(a.x as int) <= l + 445) by (nonlinear_arith)
        requires qx == a.x as int * a.x as int && qx < l * l + 2 * l + 1 + 65536 && l >= 65536;
    assert(abs_i(a.y as int) <= l + 445) by (nonlinear_arith)
        requires qy == a.y as int * a.y as int && qy < l * l + 2 * l + 1 + 65536 && l >= 65536;
    assert(abs_i(a.z as int) <= l + 445) by (nonlinear_arith)
        requires qz == a.z as int * a.z as int && qz < l * l + 2 * l + 1 + 65536 && l >= 65536;

    // The normalized components, their remainders and truncated squares.
    let (ux, rx, wx, px) = lemma_unit_comp(a.x, li);
    let (uy, ry, wy, py) = lemma_unit_comp(a.y, li);
    let (uz, rz, wz, pz) = lemma_unit_comp(a.z, li);
    assert(unit_s(a).x as int == ux && unit_s(a).y as int == uy && unit_s(a).z as int == uz);
    let lsq_u = wx + wy + wz;
    assert(length_squared_s(unit_s(a)) as int == lsq_u);

    // Exactly: l^2 * u_i^2 = (a_i * 65536 - r_i)^2.
    assert(l * l * (ux * ux) == 4294967296 * qx - 131072 * (a.x as int * rx) + rx * rx)
        by (nonlinear_arith)
        requires l * ux == a.x as int * 65536 - rx && qx == a.x as int * a.x as int;
    assert(l * l * (uy * uy) == 4294967296 * qy - 131072 * (a.y as int * ry) + ry * ry)
        by (nonlinear_arith)
        requires l * uy == a.y as int * 65536 - ry && qy == a.y as int * a.y as int;
    assert(l * l * (uz * uz) == 4294967296 * qz - 131072 * (a.z as int * rz) + rz * rz)
        by (nonlinear_arith)
        requires l * uz == a.z as int * 65536 - rz && qz == a.z as int * a.z as int;

    // Error bounds for the mixed and squared remainder terms.
    lemma_abs_mul_le(a.x as int, rx, l + 445, l);
    lemma_abs_mul_le(a.y as int, ry, l + 445, l);
    lemma_abs_mul_le(a.z as int, rz, l + 445, l);
    lemma_abs_mul_le(rx, rx, l, l);
    lemma_abs_mul_le(ry, ry, l, l);
    lemma_abs_mul_le(rz, rz, l, l);
    assert((l + 445) * l == l * l + 445 * l) by (nonlinear_arith);

    // The sum of exact squares stays within the sqrt truncation of l^2.
    assert(l * l <= qx + qy + qz);
    assert(qx + qy + qz < l * l + 2 * l + 1 + 3 * 65536);

    let ss = ux * ux + uy * uy + uz * uz;
    let d = ss - 4294967296;
    assert(l * l * d == 4294967296 * (qx + qy + qz - l * l)
        - 131072 * (a.x as int * rx + a.y as int * ry + a.z as int * rz)
        + (rx * rx + ry * ry + rz * rz)) by (nonlinear_arith)
        requires
            l * l * (ux * ux) == 4294967296 * qx - 131072 * (a.x as int * rx) + rx * rx,
            l * l * (uy * uy) == 4294967296 * qy - 131072 * (a.y as int * ry) + ry * ry,
            l * l * (uz * uz) == 4294967296 * qz - 131072 * (a.z as int * rz) + rz * rz,
            ss == ux * ux + uy * uy + uz * uz,
            d == ss - 4294967296,
    ;
    assert(l * l * d <= 4294967296 * (2 * l + 1 + 3 * 65536) + 131072 * (3 * (l * l + 445 * l))
        + 3 * (l * l));
    assert(rx * rx >= 0 && ry * ry >= 0 && rz * rz >= 0) by (nonlinear_arith);
    assert(l * l * d >= -(131072 * (3 * (l * l + 445 * l))));
    assert(8589934592 * l <= 131072 * (l * l)) by (nonlinear_arith)
        requires l >= 65536;
    assert(4294967296 * (1 + 3 * 65536) <= 196609 * (l * l)) by (nonlinear_arith)
        requires l >= 65536;
    assert(174981120 * l <= 2670 * (l * l)) by (nonlinear_arith)
        requires l >= 65536;
    assert(4294967296 * (2 * l + 1 + 3 * 65536) + 131072 * (3 * (l * l + 445 * l)) + 3 * (l * l)
        <= 786432 * (l * l));
    assert(131072 * (3 * (l * l + 445 * l)) <= 458752 * (l * l)) by (nonlinear_arith)
        requires l >= 65536;
    assert(d <= 786432) by (nonlinear_arith)
        requires l * l * d <= 786432 * (l * l) && l >= 1;
    assert(d >= -458752) by (nonlinear_arith)
        requires l * l * d >= -(458752 * (l * l)) && l >= 1;

    // Fold the final three truncations back in.
    assert(65536 * lsq_u == ss - (px + py + pz));
    assert(65536 * lsq_u >= 4294967296 - 458752 - 3 * 65536);
    assert(65536 * lsq_u <= 4294967296 + 786432);
}

/// Law: the cross product is orthogonal to both of its factors. Exactly,
/// `dot(cross(a, b), a)` and `dot(cross(a, b), b)` vanish; in fixed point
/// only the truncation error of the products remains, so the result is
/// below `(6 * bound / 65536 + 3)` raw units for inputs bounded by `bound`.
pub proof fn lemma_cross_orthogonal(a: Vec3, b: Vec3, bound: int)
    requires
        1 <= bound <= 0x40000000,
        abs_i(a.x as int) <= bound,
        abs_i(a.y as int) <= bound,
        abs_i(a.z as int) <= bound,
        abs_i(b.x as int) <= bound,
        abs_i(b.y as int) <= bound,
        abs_i(b.z as int) <= bound,
    ensures
        65536 * abs_i(dot_s(cross_s(a, b), a) as int) <= 6 * bound + 3 * 65536,
        65536 * abs_i(dot_s(cross_s(a, b), b) as int) <= 6 * bound + 3 * 65536,
{
    assert((a.y * b.z - a.z * b.y) * a.x + (a.z * b.x - a.x * b.z) * a.y
        + (a.x * b.y - a.y * b.x) * a.z == 0) by (nonlinear_arith);
    assert((a.y * b.z - a.z * b.y) * b.x + (a.z * b.x - a.x * b.z) * b.y
        + (a.x * b.y - a.y * b.x) * b.z == 0) by (nonlinear_arith);
    lemma_cross_dot_small(a, b, a, bound);
    lemma_cross_dot_small(a, b, b, bound);
}

impl Vec3 {
    pub fn new(x: i64, y: i64, z: i64) -> (r: Self)
        ensures
            r == (Vec3 { x, y, z }),
    {
        Vec3 { x, y, z }
    }

    pub fn zero() -> (r: Self)
        ensures
            r == vzero_s(),
    {
        Vec3 { x: 0, y: 0, z: 0 }
    }

    pub fn add(self, other: Self) -> (r: Self)
        ensures
            r == vadd_s(self, other),
    {
        Vec3 {
            x: fx_add(self.x, other.x),
            y: fx_add(self.y, other.y),
            z: fx_add(self.z, other.z),
        }
    }

    pub fn sub(self, other: Self) -> (r: Self)
        ensures
            r == vsub_s(self, other),
    {
        Vec3 {
            x: fx_sub(self.x, other.x),
            y: fx_sub(self.y, other.y),
            z: fx_sub(self.z, other.z),
        }
    }

    /// Componentwise product.
    pub fn mul(self, other: Self) -> (r: Self)
        ensures
            r == vmul_s(self, other),
    {
        Vec3 {
            x: fx_mul(self.x, other.x),
            y: fx_mul(self.y, other.y),
            z: fx_mul(self.z, other.z),
        }
    }

    /// Componentwise quotient.
    pub fn div(self, other: Self) -> (r: Self)
        ensures
            r == vdiv_s(self, other),
    {
        Vec3 {
            x: fx_div(self.x, other.x),
            y: fx_div(self.y, other.y),
            z: fx_div(self.z, other.z),
        }
    }

    pub fn neg(self) -> (r: Self)
        ensures
            r == vneg_s(self),
    {
        Vec3 { x: fx_neg(self.x), y: fx_neg(self.y), z: fx_neg(self.z) }
    }

    pub fn scale(self, k: i64) -> (r: Self)
        ensures
            r == scale_s(self, k),
    {
        Vec3 { x: fx_mul(self.x, k), y: fx_mul(self.y, k), z: fx_mul(self.z, k) }
    }

    pub fn div_scale(self, k: i64) -> (r: Self)
        ensures
            r == div_scale_s(self, k),
    {
        Vec3 { x: fx_div(self.x, k), y: fx_div(self.y, k), z: fx_div(self.z, k) }
    }

    pub fn dot(self, other: Self) -> (r: i64)
        ensures
            r == dot_s(self, other),
    {
        fx_add(
            fx_add(fx_mul(self.x, other.x), fx_mul(self.y, other.y)),
            fx_mul(self.z, other.z),
        )
    }

    /// Right-handed cross product.
    pub fn cross(self, other: Self) -> (r: Self)
        ensures
            r == cross_s(self, other),
    {
        Vec3 {
            x: fx_sub(fx_mul(self.y, other.z), fx_mul(self.z, other.y)),
            y: fx_sub(fx_mul(self.z, other.x), fx_mul(self.x, other.z)),
            z: fx_sub(fx_mul(self.x, other.y), fx_mul(self.y, other.x)),
        }
    }

    pub fn length_squared(self) -> (r: i64)
        ensures
            r == length_squared_s(self),
    {
        self.dot(self)
    }

    pub fn length(self) -> (r: i64)
        ensures
            r == length_s(self),
    {
        fx_sqrt(self.length_squared())
    }

    /// The vector scaled to length one; a zero-length input divides by zero
    /// and so saturates componentwise.
    pub fn unit_vector(self) -> (r: Self)
        ensures
            r == unit_s(self),
    {
        let l = self.length();
        self.div_scale(l)
    }
}

} // verus!
