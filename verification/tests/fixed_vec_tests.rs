use rand::SeedableRng;
use raytrace::fixed::{fdiv, fmul, fsqrt, HALF, ONE};
use raytrace::vecmath::Vec3;

#[test]
fn fmul_exact_products() {
    assert_eq!(fmul(HALF, HALF), 250_000);
    assert_eq!(fmul(ONE, 123_456), 123_456);
    assert_eq!(fmul(2 * ONE, 3 * ONE), 6 * ONE);
    assert_eq!(fmul(1, 1), 0);
}

#[test]
fn fmul_rounds_toward_minus_infinity() {
    assert_eq!(fmul(-1, 1), -1);
    assert_eq!(fmul(-1, 500_000), -1);
    assert_eq!(fmul(1, 500_000), 0);
    assert_eq!(fmul(-ONE, HALF), -HALF);
}

#[test]
fn fdiv_exact_quotients() {
    assert_eq!(fdiv(ONE, 2 * ONE), HALF);
    assert_eq!(fdiv(1, 3), 333_333);
    assert_eq!(fdiv(-ONE, 3 * ONE), -333_334);
    assert_eq!(fdiv(3 * ONE, ONE), 3 * ONE);
}

#[test]
fn fsqrt_exact_roots() {
    assert_eq!(fsqrt(0), 0);
    assert_eq!(fsqrt(ONE), ONE);
    assert_eq!(fsqrt(4 * ONE), 2 * ONE);
    assert_eq!(fsqrt(250_000), HALF);
    assert_eq!(fsqrt(2 * ONE), 1_414_213);
}

#[test]
fn vec_componentwise_arithmetic() {
    let a = Vec3::new(ONE, 2 * ONE, -ONE);
    let b = Vec3::new(HALF, ONE, ONE);
    assert_eq!(a.add(b), Vec3::new(ONE + HALF, 3 * ONE, 0));
    assert_eq!(a.sub(b), Vec3::new(HALF, ONE, -2 * ONE));
    assert_eq!(a.mul(b), Vec3::new(HALF, 2 * ONE, -ONE));
    assert_eq!(a.scale(HALF), Vec3::new(HALF, ONE, -HALF));
    assert_eq!(a.div(2 * ONE), Vec3::new(HALF, ONE, -HALF));
}

#[test]
fn vec_dot_and_cross() {
    let a = Vec3::new(ONE, 0, 0);
    let b = Vec3::new(0, ONE, 0);
    assert_eq!(a.dot(b), 0);
    assert_eq!(a.dot(a), ONE);
    assert_eq!(a.cross(b), Vec3::new(0, 0, ONE));
    assert_eq!(b.cross(a), Vec3::new(0, 0, -ONE));
}

#[test]
fn vec_length_and_unit() {
    let v = Vec3::new(3 * ONE, 4 * ONE, 0);
    assert_eq!(v.squared_len(), 25 * ONE);
    assert_eq!(v.length(), 5 * ONE);
    assert_eq!(v.unit_vector(), Vec3::new(600_000, 800_000, 0));
    let w = Vec3::new(0, -7 * ONE, 0);
    assert_eq!(w.unit_vector(), Vec3::new(0, -ONE, 0));
}

#[test]
fn packed_rgb_scales_and_clamps() {
    let c = Vec3::new(ONE, HALF, 0);
    assert_eq!(c.to_rgb(), 255 * 65536 + 127 * 256);
    let hot = Vec3::new(2 * ONE, 2 * ONE, 2 * ONE);
    assert_eq!(hot.to_rgb(), 255 * 65536 + 255 * 256 + 255);
    let black = Vec3::new(0, 0, 0);
    assert_eq!(black.to_rgb(), 0);
}

#[test]
fn unit_sphere_samples_are_inside() {
    let mut rng = rand::rngs::StdRng::seed_from_u64(7);
    for _ in 0..100 {
        let p = Vec3::random_in_unit_sphere(&mut rng);
        assert!(p.squared_len() < ONE);
        assert!(p.x.abs() <= ONE && p.y.abs() <= ONE && p.z.abs() <= ONE);
    }
}

#[test]
fn unit_disc_samples_are_inside_and_flat() {
    let mut rng = rand::rngs::StdRng::seed_from_u64(8);
    for _ in 0..100 {
        let p = Vec3::random_in_unit_disc(&mut rng);
        assert!(p.squared_len() < ONE);
        assert_eq!(p.z, 0);
    }
}
