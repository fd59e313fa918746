use pathtracer::fixed::{fx_add, fx_div, fx_mul, fx_neg, fx_sqrt, fx_sub};
use pathtracer::render::to_channel;
use pathtracer::vec3::Vec3;

const S: i64 = 65536;

#[test]
fn mul_is_exact_on_whole_numbers() {
    assert_eq!(fx_mul(3 * S, 4 * S), 12 * S);
    assert_eq!(fx_mul(-3 * S, 4 * S), -12 * S);
    assert_eq!(fx_mul(S / 2, S / 2), S / 4);
}

#[test]
fn mul_truncates_toward_zero() {
    assert_eq!(fx_mul(1, S / 2), 0);
    assert_eq!(fx_mul(-1, S / 2), 0);
    assert_eq!(fx_mul(S + 1, S + 1), S + 2);
    assert_eq!(fx_mul(-(S + 1), S + 1), -(S + 2));
}

#[test]
fn mul_saturates() {
    assert_eq!(fx_mul(i64::MAX, i64::MAX), i64::MAX);
    assert_eq!(fx_mul(i64::MAX, i64::MIN), i64::MIN);
    assert_eq!(fx_mul(i64::MIN, i64::MIN), i64::MAX);
}

#[test]
fn div_basics() {
    assert_eq!(fx_div(S, 2 * S), S / 2);
    assert_eq!(fx_div(-98304, 131072), -49152);
    assert_eq!(fx_div(12 * S, 4 * S), 3 * S);
}

#[test]
fn div_by_zero_saturates_by_sign() {
    assert_eq!(fx_div(1, 0), i64::MAX);
    assert_eq!(fx_div(-1, 0), i64::MIN);
    assert_eq!(fx_div(0, 0), 0);
}

#[test]
fn add_sub_neg_saturate() {
    assert_eq!(fx_add(i64::MAX, 1), i64::MAX);
    assert_eq!(fx_sub(i64::MIN, 1), i64::MIN);
    assert_eq!(fx_neg(i64::MIN), i64::MAX);
    assert_eq!(fx_add(2 * S, 3 * S), 5 * S);
    assert_eq!(fx_sub(2 * S, 3 * S), -S);
    assert_eq!(fx_neg(S), -S);
}

#[test]
fn sqrt_exact_and_floored() {
    assert_eq!(fx_sqrt(S), S);
    assert_eq!(fx_sqrt(4 * S), 2 * S);
    assert_eq!(fx_sqrt(9 * S), 3 * S);
    // sqrt(2) = 1.41421..., floored in raw units
    assert_eq!(fx_sqrt(2 * S), 92681);
    assert_eq!(fx_sqrt(3 * S), 113511);
    assert_eq!(fx_sqrt(0), 0);
    assert_eq!(fx_sqrt(-5 * S), 0);
}

#[test]
fn channel_scales_and_clamps() {
    assert_eq!(to_channel(S, 1), 255);
    assert_eq!(to_channel(S / 2, 1), 127);
    assert_eq!(to_channel(2 * S, 1), 255);
    assert_eq!(to_channel(S, 2), 127);
    assert_eq!(to_channel(-S, 1), 0);
    assert_eq!(to_channel(0, 1), 0);
}

#[test]
fn vector_componentwise_ops() {
    let a = Vec3::new(S, 2 * S, 3 * S);
    let b = Vec3::new(4 * S, 5 * S, 6 * S);
    assert_eq!(a.add(b), Vec3::new(5 * S, 7 * S, 9 * S));
    assert_eq!(b.sub(a), Vec3::new(3 * S, 3 * S, 3 * S));
    assert_eq!(a.mul(b), Vec3::new(4 * S, 10 * S, 18 * S));
    assert_eq!(b.div(a), Vec3::new(4 * S, 5 * S / 2, 2 * S));
    assert_eq!(a.neg(), Vec3::new(-S, -2 * S, -3 * S));
    assert_eq!(a.scale(2 * S), Vec3::new(2 * S, 4 * S, 6 * S));
    assert_eq!(a.div_scale(2 * S), Vec3::new(S / 2, S, 3 * S / 2));
    assert_eq!(Vec3::zero(), Vec3::new(0, 0, 0));
}

#[test]
fn dot_and_length() {
    let a = Vec3::new(S, 2 * S, 3 * S);
    let b = Vec3::new(4 * S, 5 * S, 6 * S);
    assert_eq!(a.dot(b), 32 * S);
    assert_eq!(a.length_squared(), 14 * S);
    let c = Vec3::new(3 * S, 0, 0);
    assert_eq!(c.length(), 3 * S);
    assert_eq!(Vec3::new(S, S, S).length(), 113511);
}

// Cross products are orthogonal to both factors: exact on these inputs.
#[test]
fn cross_is_orthogonal_to_both_factors() {
    let a = Vec3::new(S, 2 * S, 3 * S);
    let b = Vec3::new(4 * S, 5 * S, 6 * S);
    let c = a.cross(b);
    assert_eq!(c, Vec3::new(-3 * S, 6 * S, -3 * S));
    assert_eq!(c.dot(a), 0);
    assert_eq!(c.dot(b), 0);
    // and on inputs with fractional parts the residue is tiny
    let p = Vec3::new(S / 3, -S / 7, 2 * S / 5);
    let q = Vec3::new(-S / 2, S / 9, 5 * S / 11);
    let r = p.cross(q);
    assert!(r.dot(p).abs() <= 3);
    assert!(r.dot(q).abs() <= 3);
}

// A normalized vector has length 1 up to the truncation of the square root.
#[test]
fn unit_vector_has_unit_length() {
    let u = Vec3::new(3 * S, 0, 0).unit_vector();
    assert_eq!(u, Vec3::new(S, 0, 0));
    assert_eq!(u.length(), S);

    let v = Vec3::new(S, S, S).unit_vector();
    assert_eq!(v, Vec3::new(37837, 37837, 37837));
    let lsq = v.length_squared();
    assert!((lsq - S).abs() <= 4, "length squared {} is not close to one", lsq);

    let w = Vec3::new(-5 * S, 12 * S / 10, 7 * S / 3).unit_vector();
    let lsq_w = w.length_squared();
    assert!((lsq_w - S).abs() <= 8, "length squared {} is not close to one", lsq_w);
}
