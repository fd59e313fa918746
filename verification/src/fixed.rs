//! Saturating Q47.16 fixed-point scalars.
//!
//! A scalar is an `i64` raw value standing for `raw / 65536`. Every
//! operation is total: results outside the `i64` range saturate to
//! `i64::MIN` / `i64::MAX`, and a division by zero returns the saturated
//! extreme matching the dividend's sign (zero when the dividend is zero).

use vstd::prelude::*;

verus! {

/// Raw units per 1.0: scalars carry 16 fractional bits.
pub const SCALE: i64 = 65536;

/// The raw value of 1.0.
pub const FX_ONE: i64 = 65536;

pub open spec fn abs_i(a: int) -> int {
    if a >= 0 { a } else { -a }
}

/// Saturation to the `i64` range.
pub open spec fn clamp64(x: int) -> i64 {
    if x > i64::MAX { i64::MAX } else if x < i64::MIN { i64::MIN } else { x as i64 }
}

/// Truncating (round-toward-zero) division, the rounding hardware division
/// uses; unspecified when `d == 0`.
pub open spec fn tdiv(n: int, d: int) -> int {
    if (n >= 0) == (d >= 0) { abs_i(n) / abs_i(d) } else { -(abs_i(n) / abs_i(d)) }
}

pub open spec fn fx_add_s(a: i64, b: i64) -> i64 {
    clamp64(a + b)
}

pub open spec fn fx_sub_s(a: i64, b: i64) -> i64 {
    clamp64(a - b)
}

pub open spec fn fx_neg_s(a: i64) -> i64 {
    clamp64(-(a as int))
}

pub open spec fn fx_mul_s(a: i64, b: i64) -> i64 {
    clamp64(tdiv(a as int * b as int, SCALE as int))
}

pub open spec fn fx_div_s(a: i64, b: i64) -> i64 {
    if b == 0 {
        if a > 0 { i64::MAX } else if a < 0 { i64::MIN } else { 0 }
    } else {
        clamp64(tdiv(a as int * SCALE as int, b as int))
    }
}

/// `r` is the integer square root of `n`.
pub open spec fn is_isqrt(n: int, r: int) -> bool {
    0 <= r && r * r <= n && n < (r + 1) * (r + 1)
}

pub open spec fn isqrt_s(n: int) -> int {
    choose|r: int| #[trigger] is_isqrt(n, r)
}

/// Square root in the fixed-point scale: `sqrt(a / S) * S == sqrt(a * S)`.
/// Negative inputs (a domain error) map to zero.
pub open spec fn fx_sqrt_s(a: i64) -> i64 {
    if a <= 0 { 0 } else { isqrt_s(a as int * SCALE as int) as i64 }
}

pub fn fx_add(a: i64, b: i64) -> (r: i64)
    ensures
        r == fx_add_s(a, b),
{
    if b >= 0 {
        if a > i64::MAX - b { i64::MAX } else { a + b }
    } else {
        if a < i64::MIN - b { i64::MIN } else { a + b }
    }
}

pub fn fx_sub(a: i64, b: i64) -> (r: i64)
    ensures
        r == fx_sub_s(a, b),
{
    if b >= 0 {
        if a < i64::MIN + b { i64::MIN } else { a - b }
    } else {
        if a > i64::MAX + b { i64::MAX } else { a - b }
    }
}

pub fn fx_neg(a: i64) -> (r: i64)
    ensures
        r == fx_neg_s(a),
{
    if a == i64::MIN { i64::MAX } else { -a }
}

fn abs_u64(a: i64) -> (r: u64)
    ensures
        r as int == abs_i(a as int),
{
    if a >= 0 {
        a as u64
    } else if a == i64::MIN {
        9223372036854775808u64
    } else {
        (-a) as u64
    }
}

/// Attach a sign to a magnitude, saturating to the `i64` range.
fn sat_signed(mag: u128, neg: bool) -> (r: i64)
    ensures
        r == (if neg { clamp64(-(mag as int)) } else { clamp64(mag as int) }),
{
    if neg {
        if mag >= 9223372036854775808u128 {
            i64::MIN
        } else {
            -(mag as i64)
        }
    } else {
        if mag > 9223372036854775807u128 {
            i64::MAX
        } else {
            mag as i64
        }
    }
}

proof fn lemma_mul_sign_abs(a: int, b: int)
    by (nonlinear_arith)
    ensures
        abs_i(a) * abs_i(b) >= 0,
        a * b == (if (a < 0) != (b < 0) { -(abs_i(a) * abs_i(b)) } else { abs_i(a) * abs_i(b) }),
{
}

pub fn fx_mul(a: i64, b: i64) -> (r: i64)
    ensures
        r == fx_mul_s(a, b),
{
    let na = abs_u64(a);
    let nb = abs_u64(b);
    proof {
        assert((na as int) * (nb as int) <= 0x8000000000000000 * 0x8000000000000000)
            by (nonlinear_arith)
            requires 0 <= na <= 0x8000000000000000 && 0 <= nb <= 0x8000000000000000;
    }
    let p: u128 = (na as u128) * (nb as u128);
    let q: u128 = p / 65536;
    let neg = (a < 0) != (b < 0);
    proof {
        lemma_mul_sign_abs(a as int, b as int);
    }
    sat_signed(q, neg)
}

pub fn fx_div(a: i64, b: i64) -> (r: i64)
    ensures
        r == fx_div_s(a, b),
{
    if b == 0 {
        if a > 0 {
            i64::MAX
        } else if a < 0 {
            i64::MIN
        } else {
            0
        }
    } else {
        let na = abs_u64(a);
        let nb = abs_u64(b);
        let p: u128 = (na as u128) * 65536;
        let q: u128 = p / (nb as u128);
        let neg = (a < 0) != (b < 0);
        proof {
            lemma_mul_sign_abs(a as int, 65536);
        }
        sat_signed(q, neg)
    }
}

pub proof fn lemma_abs_mul_le(x: int, y: int, mx: int, my: int)
    by (nonlinear_arith)
    requires
        abs_i(x) <= mx,
        abs_i(y) <= my,
    ensures
        abs_i(x * y) <= mx * my,
{
}

/// Truncating division leaves a remainder smaller than the (positive)
/// divisor, and the scaled-back quotient never exceeds the dividend.
pub proof fn lemma_tdiv_rem(x: int, d: int)
    by (nonlinear_arith)
    requires
        d > 0,
    ensures
        abs_i(x - d * tdiv(x, d)) < d,
        abs_i(tdiv(x, d)) * d <= abs_i(x),
        x >= 0 ==> tdiv(x, d) >= 0 && x - d * tdiv(x, d) >= 0,
{
}

/// Truncating division by a positive divisor is monotone in the dividend.
pub proof fn lemma_tdiv_mono(x1: int, x2: int, d: int)
    by (nonlinear_arith)
    requires
        x1 <= x2,
        d > 0,
    ensures
        tdiv(x1, d) <= tdiv(x2, d),
{
}

/// A fixed-point product of nonnegative factors is nonnegative.
pub proof fn lemma_fx_mul_nonneg(a: i64, x: i64)
    requires
        0 <= a,
        0 <= x,
    ensures
        0 <= fx_mul_s(a, x),
{
    let p = a as int * x as int;
    assert(0 <= p) by (nonlinear_arith)
        requires p == a as int * x as int && 0 <= a && 0 <= x;
    lemma_tdiv_rem(p, 65536);
}

/// A fixed-point product with a factor in [0, 1] keeps the other operand's
/// sign and never increases it.
pub proof fn lemma_fx_mul_bounds(a: i64, x: i64, m: i64)
    requires
        0 <= a <= 65536,
        0 <= x <= m,
    ensures
        0 <= fx_mul_s(a, x) <= m,
{
    let p = a as int * x as int;
    assert(0 <= p && p <= 65536 * (x as int)) by (nonlinear_arith)
        requires p == a as int * x as int && 0 <= a <= 65536 && 0 <= x;
    lemma_tdiv_rem(p, 65536);
    lemma_tdiv_mono(p, 65536 * (x as int), 65536);
    vstd::arithmetic::div_mod::lemma_div_multiples_vanish(x as int, 65536);
    assert(tdiv(65536 * (x as int), 65536) == x as int);
}

/// Fixed-point division by a nonnegative divisor is monotone in the dividend.
pub proof fn lemma_fx_div_mono(n1: i64, n2: i64, d: i64)
    requires
        n1 <= n2,
        d >= 0,
    ensures
        fx_div_s(n1, d) <= fx_div_s(n2, d),
{
    if d != 0 {
        lemma_tdiv_mono(n1 as int * 65536, n2 as int * 65536, d as int);
    }
}

proof fn lemma_isqrt_exists_rec(n: nat)
    ensures
        exists|r: int| #[trigger] is_isqrt(n as int, r),
    decreases n,
{
    if n == 0 {
        assert(is_isqrt(0, 0));
    } else {
        lemma_isqrt_exists_rec((n - 1) as nat);
        let p = choose|r: int| #[trigger] is_isqrt(n as int - 1, r);
        if (p + 1) * (p + 1) <= n as int {
            assert((p + 1) * (p + 1) < (p + 2) * (p + 2)) by (nonlinear_arith)
                requires p >= 0;
            assert(is_isqrt(n as int, p + 1));
        } else {
            assert(is_isqrt(n as int, p));
        }
    }
}

pub proof fn lemma_isqrt_exists(n: int)
    requires
        n >= 0,
    ensures
        is_isqrt(n, isqrt_s(n)),
{
    lemma_isqrt_exists_rec(n as nat);
}

pub proof fn lemma_isqrt_unique(n: int, r1: int, r2: int)
    by (nonlinear_arith)
    requires
        is_isqrt(n, r1),
        is_isqrt(n, r2),
    ensures
        r1 == r2,
{
}

fn isqrt_u128(n: u128) -> (r: u64)
    requires
        n < 0x100000000000000000000u128,
    ensures
        is_isqrt(n as int, r as int),
        r <= 0x10000000000u64,
{
    let mut lo: u64 = 0;
    let mut hi: u64 = 0x10000000000u64;
    while lo + 1 < hi
        invariant
            lo < hi <= 0x10000000000u64,
            (lo as int) * (lo as int) <= n as int,
            (n as int) < (hi as int) * (hi as int),
        decreases hi - lo,
    {
        let mid = lo + (hi - lo) / 2;
        proof {
            assert((mid as int) * (mid as int) <= 0x10000000000 * 0x10000000000) by (nonlinear_arith)
                requires 0 <= mid <= 0x10000000000;
        }
        let sq: u128 = (mid as u128) * (mid as u128);
        if sq <= n {
            lo = mid;
        } else {
            hi = mid;
        }
    }
    lo
}

pub fn fx_sqrt(a: i64) -> (r: i64)
    ensures
        r == fx_sqrt_s(a),
{
    if a <= 0 {
        0
    } else {
        let n: u128 = (a as u128) * 65536;
        let r = isqrt_u128(n);
        proof {
            lemma_isqrt_exists(n as int);
            lemma_isqrt_unique(n as int, r as int, isqrt_s(n as int));
        }
        r as i64
    }
}

} // verus!
